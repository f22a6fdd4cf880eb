//! Flow tracking: aggregates packet summaries into per-key counters over
//! time windows that move with the traffic: a flow's window opens at its
//! first packet, and a packet that comes after the window has closed opens a
//! new one. Every detector reads its evidence from here.
use vstd::prelude::*;

use std::collections::HashSet;

use crate::net::IpAddr;
use crate::parser::{PacketSummary, Protocol};

verus! {

broadcast use vstd::std_specs::hash::group_hash_axioms;

/// Key for grouping packets into a flow: SYN-flood detection groups the
/// flows by destination, port-scan detection by source.
#[derive(Debug, Clone, Copy, PartialEq, Eq, Hash, Structural)]
pub struct FlowKey {
    pub src_ip: IpAddr,
    pub dst_ip: IpAddr,
    pub protocol: Protocol,
}

/// The counters of one flow, as a mathematical value.
pub struct FlowStats {
    pub packet_count: u64,
    pub syn_count: u64,
    pub ack_count: u64,
    pub byte_count: u64,
    pub distinct_dst_ports: Set<u16>,
    pub window_start_micros: i64,
    pub last_seen_micros: i64,
}

/// A snapshot of one flow's counters, handed to detectors and reports.
#[derive(Debug, Clone, Copy)]
pub struct FlowRecord {
    pub key: FlowKey,
    pub packet_count: u64,
    pub byte_count: u64,
    pub syn_count: u64,
    pub ack_count: u64,
    /// How many different destination ports the flow has touched.
    pub distinct_dst_ports: usize,
    pub window_start_micros: i64,
    pub last_seen_micros: i64,
}

/// The state of a flow that has seen no packet yet; its window opens at the
/// timestamp of the packet that creates it.
pub open spec fn fresh_stats(pkt: PacketSummary) -> FlowStats {
    FlowStats {
        packet_count: 0,
        syn_count: 0,
        ack_count: 0,
        byte_count: 0,
        distinct_dst_ports: Set::empty(),
        window_start_micros: pkt.timestamp_micros,
        last_seen_micros: 0,
    }
}

/// Whether `pkt` carries a TCP SYN.
pub open spec fn has_syn(pkt: PacketSummary) -> bool {
    pkt.tcp_flags matches Some(f) && f.syn
}

/// Whether `pkt` carries a TCP ACK.
pub open spec fn has_ack(pkt: PacketSummary) -> bool {
    pkt.tcp_flags matches Some(f) && f.ack
}

/// Counting `pkt` into a flow's counters does not overflow any of them.
pub open spec fn bump_fits(st: FlowStats, pkt: PacketSummary) -> bool {
    &&& st.packet_count < u64::MAX
    &&& st.byte_count + pkt.payload_len <= u64::MAX
    &&& has_syn(pkt) ==> st.syn_count < u64::MAX
    &&& has_ack(pkt) ==> st.ack_count < u64::MAX
}

/// The counters of a flow after it has counted `pkt`.
pub open spec fn bump(st: FlowStats, pkt: PacketSummary) -> FlowStats {
    FlowStats {
        packet_count: (st.packet_count + 1) as u64,
        syn_count: if has_syn(pkt) {
            (st.syn_count + 1) as u64
        } else {
            st.syn_count
        },
        ack_count: if has_ack(pkt) {
            (st.ack_count + 1) as u64
        } else {
            st.ack_count
        },
        byte_count: (st.byte_count + pkt.payload_len) as u64,
        distinct_dst_ports: match pkt.dst_port {
            Some(port) => st.distinct_dst_ports.insert(port),
            None => st.distinct_dst_ports,
        },
        window_start_micros: st.window_start_micros,
        last_seen_micros: pkt.timestamp_micros,
    }
}

/// The counters that `pkt` is counted into under `key` with windows of
/// `window_secs`: the flow's own while its window is still open at the
/// packet's time, otherwise a fresh window opened by the packet.
pub open spec fn current_stats(m: Map<FlowKey, FlowStats>, key: FlowKey, pkt: PacketSummary, window_secs: u64) -> FlowStats {
    if m.contains_key(key) && window_open(m[key], window_secs, pkt.timestamp_micros) {
        m[key]
    } else {
        fresh_stats(pkt)
    }
}

/// The flow table `m` after counting `pkt` under `key` with windows of
/// `window_secs`.
pub open spec fn recorded(m: Map<FlowKey, FlowStats>, key: FlowKey, pkt: PacketSummary, window_secs: u64) -> Map<FlowKey, FlowStats> {
    m.insert(key, bump(current_stats(m, key, pkt, window_secs), pkt))
}

/// Position of the flow with key `k` in the table `s` (its last occurrence),
/// or -1 when there is none.
pub open spec fn index_of_key(s: Seq<(FlowKey, FlowStats)>, k: FlowKey) -> int
    decreases s.len(),
{
    if s.len() == 0 {
        -1
    } else if s.last().0 == k {
        s.len() - 1
    } else {
        index_of_key(s.drop_last(), k)
    }
}

/// No key occurs twice in the table.
pub open spec fn keys_unique(s: Seq<(FlowKey, FlowStats)>) -> bool {
    forall|i: int, j: int| 0 <= i < s.len() && 0 <= j < s.len() && i != j ==> s[i].0 != s[j].0
}

/// Every flow's set of destination ports is finite.
pub open spec fn ports_finite(s: Seq<(FlowKey, FlowStats)>) -> bool {
    forall|i: int| 0 <= i < s.len() ==> (#[trigger] s[i]).1.distinct_dst_ports.finite()
}

/// The table as a map from key to counters.
pub open spec fn table_map(s: Seq<(FlowKey, FlowStats)>) -> Map<FlowKey, FlowStats> {
    Map::new(|k: FlowKey| index_of_key(s, k) >= 0, |k: FlowKey| s[index_of_key(s, k)].1)
}

/// The table after counting `pkt` under `key` with windows of
/// `window_secs`: the flow keeps its place (restarting its window when that
/// has closed), a new flow goes to the end.
pub open spec fn record_table(s: Seq<(FlowKey, FlowStats)>, key: FlowKey, pkt: PacketSummary, window_secs: u64) -> Seq<(FlowKey, FlowStats)> {
    let i = index_of_key(s, key);
    if i >= 0 && window_open(s[i].1, window_secs, pkt.timestamp_micros) {
        s.update(i, (key, bump(s[i].1, pkt)))
    } else if i >= 0 {
        s.update(i, (key, bump(fresh_stats(pkt), pkt)))
    } else {
        s.push((key, bump(fresh_stats(pkt), pkt)))
    }
}

/// The snapshot of one table entry.
pub open spec fn record_of(e: (FlowKey, FlowStats)) -> FlowRecord {
    FlowRecord {
        key: e.0,
        packet_count: e.1.packet_count,
        byte_count: e.1.byte_count,
        syn_count: e.1.syn_count,
        ack_count: e.1.ack_count,
        distinct_dst_ports: e.1.distinct_dst_ports.len() as usize,
        window_start_micros: e.1.window_start_micros,
        last_seen_micros: e.1.last_seen_micros,
    }
}

/// The snapshots of all entries of a table, in order.
pub open spec fn records_of(s: Seq<(FlowKey, FlowStats)>) -> Seq<FlowRecord> {
    s.map_values(|e: (FlowKey, FlowStats)| record_of(e))
}

/// The instant `t` lies no more than `window_secs` seconds before `now`.
pub open spec fn within_window(t: i64, window_secs: u64, now: i64) -> bool {
    now - t <= window_secs * 1_000_000
}

/// A flow's window is still open at `now`: it opened, and the flow was last
/// seen, no more than `window_secs` seconds before `now`.
pub open spec fn window_open(st: FlowStats, window_secs: u64, now: i64) -> bool {
    within_window(st.window_start_micros, window_secs, now) && within_window(st.last_seen_micros, window_secs, now)
}

/// Properties of `index_of_key`: it points at an entry with the key, it is
/// -1 exactly when no entry has the key, and with unique keys it is the one
/// entry that has it.
pub proof fn lemma_index_of_key(s: Seq<(FlowKey, FlowStats)>, k: FlowKey)
    ensures
        -1 <= index_of_key(s, k) < s.len(),
        index_of_key(s, k) >= 0 ==> s[index_of_key(s, k)].0 == k,
        index_of_key(s, k) == -1 <==> (forall|j: int| 0 <= j < s.len() ==> s[j].0 != k),
        keys_unique(s) ==> forall|j: int| 0 <= j < s.len() && s[j].0 == k ==> index_of_key(s, k) == j,
    decreases s.len(),
{
    if s.len() > 0 {
        lemma_index_of_key(s.drop_last(), k);
        if s.last().0 != k {
            assert forall|j: int| 0 <= j < s.len() - 1 implies s.drop_last()[j] == s[j] by {}
        }
    }
}

/// Changing the counters of an entry moves no key.
pub proof fn lemma_index_of_key_update(s: Seq<(FlowKey, FlowStats)>, i: int, st: FlowStats, k: FlowKey)
    requires
        0 <= i < s.len(),
    ensures
        index_of_key(s.update(i, (s[i].0, st)), k) == index_of_key(s, k),
    decreases s.len(),
{
    let t = s.update(i, (s[i].0, st));
    if i < s.len() - 1 {
        assert(t.drop_last() =~= s.drop_last().update(i, (s[i].0, st)));
        assert(t.last() == s.last());
        lemma_index_of_key_update(s.drop_last(), i, st, k);
    } else {
        assert(t.drop_last() =~= s.drop_last());
        assert(t.last().0 == s.last().0);
    }
}

/// Appending an entry makes it the place of its key and moves no other key.
pub proof fn lemma_index_of_key_push(s: Seq<(FlowKey, FlowStats)>, e: (FlowKey, FlowStats), k: FlowKey)
    ensures
        index_of_key(s.push(e), k) == if e.0 == k {
            s.len() as int
        } else {
            index_of_key(s, k)
        },
{
    assert(s.push(e).drop_last() =~= s);
}

/// The map view of the table after `record_table` is `recorded`.
pub proof fn lemma_record_table_map(s: Seq<(FlowKey, FlowStats)>, key: FlowKey, pkt: PacketSummary, w: u64)
    ensures
        table_map(record_table(s, key, pkt, w)) =~= recorded(table_map(s), key, pkt, w),
{
    let i = index_of_key(s, key);
    lemma_index_of_key(s, key);
    let t = record_table(s, key, pkt, w);
    let m = table_map(s);
    let r = recorded(m, key, pkt, w);
    if i >= 0 {
        let st = bump(current_stats(m, key, pkt, w), pkt);
        assert(t == s.update(i, (s[i].0, st)));
        assert forall|k: FlowKey| #[trigger] table_map(t).contains_key(k) == r.contains_key(k) by {
            lemma_index_of_key_update(s, i, st, k);
        }
        assert forall|k: FlowKey| #[trigger] r.contains_key(k) implies table_map(t)[k] == r[k] by {
            lemma_index_of_key_update(s, i, st, k);
            lemma_index_of_key(s, k);
        }
    } else {
        assert forall|k: FlowKey| #[trigger] table_map(t).contains_key(k) == r.contains_key(k) by {
            lemma_index_of_key_push(s, (key, bump(fresh_stats(pkt), pkt)), k);
        }
        assert forall|k: FlowKey| #[trigger] r.contains_key(k) implies table_map(t)[k] == r[k] by {
            lemma_index_of_key_push(s, (key, bump(fresh_stats(pkt), pkt)), k);
            lemma_index_of_key(s, k);
        }
    }
}

/// The flows of `s` whose window is still open at `now`, in table order.
pub open spec fn retain_within(s: Seq<(FlowKey, FlowStats)>, window_secs: u64, now: i64) -> Seq<(FlowKey, FlowStats)>
    decreases s.len(),
{
    if s.len() == 0 {
        s
    } else if window_open(s.last().1, window_secs, now) {
        retain_within(s.drop_last(), window_secs, now).push(s.last())
    } else {
        retain_within(s.drop_last(), window_secs, now)
    }
}

/// The flows of `m` whose window is still open at `now`, unchanged.
pub open spec fn restrict_within(m: Map<FlowKey, FlowStats>, window_secs: u64, now: i64) -> Map<FlowKey, FlowStats> {
    Map::new(
        |k: FlowKey| m.contains_key(k) && window_open(m[k], window_secs, now),
        |k: FlowKey| m[k],
    )
}

/// The table grows by its last entry.
pub proof fn lemma_table_map_push(s: Seq<(FlowKey, FlowStats)>, e: (FlowKey, FlowStats))
    ensures
        table_map(s.push(e)) =~= table_map(s).insert(e.0, e.1),
{
    assert forall|k: FlowKey| #[trigger] table_map(s.push(e)).contains_key(k) == table_map(s).insert(e.0, e.1).contains_key(k) by {
        lemma_index_of_key_push(s, e, k);
    }
    assert forall|k: FlowKey| #[trigger] table_map(s.push(e)).contains_key(k) implies table_map(s.push(e))[k] == table_map(s).insert(e.0, e.1)[k] by {
        lemma_index_of_key_push(s, e, k);
        lemma_index_of_key(s, k);
    }
}

/// Keeping the flows inside the window keeps only entries of the table,
/// keeps keys unique and finite port sets, and in map form drops exactly
/// the stale flows.
pub proof fn lemma_retain_within(s: Seq<(FlowKey, FlowStats)>, window_secs: u64, now: i64)
    requires
        keys_unique(s),
        ports_finite(s),
    ensures
        keys_unique(retain_within(s, window_secs, now)),
        ports_finite(retain_within(s, window_secs, now)),
        forall|j: int| 0 <= j < retain_within(s, window_secs, now).len()
            ==> #[trigger] s.contains(retain_within(s, window_secs, now)[j]),
        table_map(retain_within(s, window_secs, now)) =~= restrict_within(table_map(s), window_secs, now),
    decreases s.len(),
{
    if s.len() > 0 {
        let p = s.drop_last();
        let e = s.last();
        assert(s =~= p.push(e));
        assert(keys_unique(p));
        assert forall|i: int| 0 <= i < p.len() implies (#[trigger] p[i]).1.distinct_dst_ports.finite() by {
            assert(p[i] == s[i]);
        }
        lemma_retain_within(p, window_secs, now);
        let r = retain_within(p, window_secs, now);
        lemma_table_map_push(p, e);
        assert forall|j: int| 0 <= j < r.len() implies #[trigger] s.contains(r[j]) by {
            assert(p.contains(r[j]));
            let w = choose|w: int| 0 <= w < p.len() && p[w] == r[j];
            assert(s[w] == r[j]);
        }
        assert forall|j: int| 0 <= j < r.len() implies r[j].0 != e.0 by {
            assert(p.contains(r[j]));
            let w = choose|w: int| 0 <= w < p.len() && p[w] == r[j];
            assert(s[w] == p[w]);
        }
        lemma_index_of_key(p, e.0);
        if window_open(e.1, window_secs, now) {
            lemma_table_map_push(r, e);
            assert(retain_within(s, window_secs, now) == r.push(e));
            assert forall|j: int| 0 <= j < r.push(e).len() implies #[trigger] s.contains(r.push(e)[j]) by {
                if j == r.len() {
                    assert(s[s.len() - 1] == e);
                } else {
                    assert(s.contains(r[j]));
                }
            }
        } else {
            assert(retain_within(s, window_secs, now) == r);
            lemma_index_of_key(r, e.0);
        }
    }
}

/// Counting two packets into one flow within one window accumulates: two
/// more packets, both payloads, the window still opening where it opened
/// (at the first packet when that one opened it), and the flow last seen at
/// the second packet.
pub proof fn law_record_accumulates(
    m: Map<FlowKey, FlowStats>,
    key: FlowKey,
    p1: PacketSummary,
    p2: PacketSummary,
    w: u64,
)
    requires
        bump_fits(current_stats(m, key, p1, w), p1),
        bump_fits(current_stats(recorded(m, key, p1, w), key, p2, w), p2),
        window_open(recorded(m, key, p1, w)[key], w, p2.timestamp_micros),
    ensures
        recorded(recorded(m, key, p1, w), key, p2, w)[key].packet_count == current_stats(m, key, p1, w).packet_count
            + 2,
        recorded(recorded(m, key, p1, w), key, p2, w)[key].byte_count == current_stats(m, key, p1, w).byte_count
            + p1.payload_len + p2.payload_len,
        recorded(recorded(m, key, p1, w), key, p2, w)[key].window_start_micros == current_stats(
            m,
            key,
            p1,
            w,
        ).window_start_micros,
        !m.contains_key(key) ==> recorded(recorded(m, key, p1, w), key, p2, w)[key].window_start_micros
            == p1.timestamp_micros,
        recorded(recorded(m, key, p1, w), key, p2, w)[key].last_seen_micros == p2.timestamp_micros,
{
}

/// A packet that arrives after its flow's window has closed (the window
/// opened, or the flow was last seen, more than one window length before
/// the packet) restarts the flow: its counters are those of that packet
/// alone.
pub proof fn law_record_restarts_closed_window(m: Map<FlowKey, FlowStats>, key: FlowKey, pkt: PacketSummary, w: u64)
    requires
        m.contains_key(key),
        !window_open(m[key], w, pkt.timestamp_micros),
    ensures
        recorded(m, key, pkt, w)[key] == bump(fresh_stats(pkt), pkt),
        recorded(m, key, pkt, w)[key].packet_count == 1,
        recorded(m, key, pkt, w)[key].byte_count == pkt.payload_len,
        recorded(m, key, pkt, w)[key].window_start_micros == pkt.timestamp_micros,
{
}

/// Counting a packet under one key leaves every other flow as it was, and
/// packets under different keys can be counted in either order.
pub proof fn law_record_keys_independent(
    m: Map<FlowKey, FlowStats>,
    k1: FlowKey,
    p1: PacketSummary,
    k2: FlowKey,
    p2: PacketSummary,
    w: u64,
)
    requires
        k1 != k2,
    ensures
        recorded(m, k2, p2, w).contains_key(k1) == m.contains_key(k1),
        m.contains_key(k1) ==> recorded(m, k2, p2, w)[k1] == m[k1],
        recorded(recorded(m, k1, p1, w), k2, p2, w) == recorded(recorded(m, k2, p2, w), k1, p1, w),
{
    assert(recorded(recorded(m, k1, p1, w), k2, p2, w) =~= recorded(recorded(m, k2, p2, w), k1, p1, w));
}

/// Counting a packet adds a flow exactly when its key is new.
pub proof fn law_flow_count(m: Map<FlowKey, FlowStats>, key: FlowKey, pkt: PacketSummary, w: u64)
    requires
        m.dom().finite(),
    ensures
        recorded(m, key, pkt, w).dom().len() == m.dom().len() + if m.contains_key(key) {
            0int
        } else {
            1int
        },
{
    if m.contains_key(key) {
        assert(recorded(m, key, pkt, w).dom() =~= m.dom());
    } else {
        assert(recorded(m, key, pkt, w).dom() =~= m.dom().insert(key));
    }
}

/// A destination port counts once per window: seeing it again leaves the
/// window's set of ports unchanged, and a new port grows it by one.
pub proof fn law_distinct_ports(m: Map<FlowKey, FlowStats>, key: FlowKey, pkt: PacketSummary, port: u16, w: u64)
    requires
        pkt.dst_port == Some(port),
        current_stats(m, key, pkt, w).distinct_dst_ports.finite(),
    ensures
        current_stats(m, key, pkt, w).distinct_dst_ports.contains(port) ==> recorded(
            m,
            key,
            pkt,
            w,
        )[key].distinct_dst_ports == current_stats(m, key, pkt, w).distinct_dst_ports,
        !current_stats(m, key, pkt, w).distinct_dst_ports.contains(port) ==> recorded(
            m,
            key,
            pkt,
            w,
        )[key].distinct_dst_ports.len() == current_stats(m, key, pkt, w).distinct_dst_ports.len() + 1,
{
    let ports = current_stats(m, key, pkt, w).distinct_dst_ports;
    if ports.contains(port) {
        assert(ports.insert(port) =~= ports);
    }
}

/// A packet with SYN set counts one SYN, one with ACK set counts one ACK,
/// and a packet without TCP flags counts neither.
pub proof fn law_flag_counting(m: Map<FlowKey, FlowStats>, key: FlowKey, pkt: PacketSummary, w: u64)
    requires
        bump_fits(current_stats(m, key, pkt, w), pkt),
    ensures
        recorded(m, key, pkt, w)[key].syn_count == current_stats(m, key, pkt, w).syn_count + if has_syn(pkt) {
            1int
        } else {
            0int
        },
        recorded(m, key, pkt, w)[key].ack_count == current_stats(m, key, pkt, w).ack_count + if has_ack(pkt) {
            1int
        } else {
            0int
        },
        pkt.tcp_flags is None ==> recorded(m, key, pkt, w)[key].syn_count == current_stats(m, key, pkt, w).syn_count
            && recorded(m, key, pkt, w)[key].ack_count == current_stats(m, key, pkt, w).ack_count,
{
}

/// The TCP flag bits of a packet decide its SYN and ACK counts: a packet
/// with flags `f` raises the SYN count by one exactly when `f.syn` is set and
/// the ACK count by one exactly when `f.ack` is set (FIN and RST count for
/// neither); a packet without TCP flags raises neither. The counts start
/// from the flow's own while its window is open, and from zero otherwise.
pub proof fn law_flag_bits_decide_counts(m: Map<FlowKey, FlowStats>, key: FlowKey, pkt: PacketSummary, w: u64)
    requires
        bump_fits(current_stats(m, key, pkt, w), pkt),
    ensures
        ({
            let open = m.contains_key(key) && window_open(m[key], w, pkt.timestamp_micros);
            let syn_before: int = if open {
                m[key].syn_count as int
            } else {
                0
            };
            let ack_before: int = if open {
                m[key].ack_count as int
            } else {
                0
            };
            let after = recorded(m, key, pkt, w)[key];
            &&& pkt.tcp_flags matches Some(f) ==> after.syn_count == syn_before + if f.syn {
                1int
            } else {
                0int
            }
            &&& pkt.tcp_flags matches Some(f) ==> after.ack_count == ack_before + if f.ack {
                1int
            } else {
                0int
            }
            &&& pkt.tcp_flags is None ==> after.syn_count == syn_before && after.ack_count == ack_before
        }),
{
}

/// A flow that has just counted a packet is not stale at that packet's
/// time.
pub proof fn law_recorded_flow_survives_eviction(m: Map<FlowKey, FlowStats>, key: FlowKey, pkt: PacketSummary, w: u64)
    ensures
        restrict_within(recorded(m, key, pkt, w), w, pkt.timestamp_micros).contains_key(key),
        restrict_within(recorded(m, key, pkt, w), w, pkt.timestamp_micros)[key] == recorded(m, key, pkt, w)[key],
{
}

/// After eviction at `now` every remaining flow's window opened, and the
/// flow was last seen, no more than one window length before `now`; so a
/// report made right after counts no packet of a window that opened
/// earlier. Evicting again at the same time drops nothing more.
pub proof fn law_eviction(m: Map<FlowKey, FlowStats>, window_secs: u64, now: i64)
    ensures
        forall|k: FlowKey| #[trigger] restrict_within(m, window_secs, now).contains_key(k) ==> window_open(
            restrict_within(m, window_secs, now)[k],
            window_secs,
            now,
        ),
        restrict_within(restrict_within(m, window_secs, now), window_secs, now) == restrict_within(
            m,
            window_secs,
            now,
        ),
{
    assert(restrict_within(restrict_within(m, window_secs, now), window_secs, now) =~= restrict_within(
        m,
        window_secs,
        now,
    ));
}

/// The consistency of one flow's counters: at least one packet, no more
/// SYNs, ACKs or distinct ports than packets, and the window opened no later
/// than the flow was last seen.
pub open spec fn flow_invariant(st: FlowStats) -> bool {
    &&& 1 <= st.packet_count
    &&& st.syn_count <= st.packet_count
    &&& st.ack_count <= st.packet_count
    &&& st.distinct_dst_ports.finite()
    &&& st.distinct_dst_ports.len() <= st.packet_count
    &&& st.window_start_micros <= st.last_seen_micros
}

/// Counting a packet keeps every flow consistent, provided packets of a
/// flow come in time order.
pub proof fn law_record_keeps_flow_invariant(m: Map<FlowKey, FlowStats>, key: FlowKey, pkt: PacketSummary, w: u64)
    requires
        forall|k: FlowKey| #[trigger] m.contains_key(k) ==> flow_invariant(m[k]),
        m.contains_key(key) ==> pkt.timestamp_micros >= m[key].last_seen_micros,
        bump_fits(current_stats(m, key, pkt, w), pkt),
    ensures
        forall|k: FlowKey| #[trigger] recorded(m, key, pkt, w).contains_key(k) ==> flow_invariant(
            recorded(m, key, pkt, w)[k],
        ),
{
    let st = current_stats(m, key, pkt, w);
    let ports = st.distinct_dst_ports;
    if !(m.contains_key(key) && window_open(m[key], w, pkt.timestamp_micros)) {
        assert(ports == Set::<u16>::empty());
    }
    assert(ports.finite());
    if let Some(port) = pkt.dst_port {
        assert(ports.insert(port).len() <= ports.len() + 1);
    }
    assert(flow_invariant(recorded(m, key, pkt, w)[key]));
}

/// The flow table after counting `pkts` in order under `key`.
pub open spec fn replay(m: Map<FlowKey, FlowStats>, key: FlowKey, pkts: Seq<PacketSummary>, w: u64) -> Map<FlowKey, FlowStats>
    decreases pkts.len(),
{
    if pkts.len() == 0 {
        m
    } else {
        recorded(replay(m, key, pkts.drop_last(), w), key, pkts.last(), w)
    }
}

/// The counters of a window opened by `pkts[0]` that counted all of `pkts`.
pub open spec fn accumulate(pkts: Seq<PacketSummary>) -> FlowStats
    decreases pkts.len(),
{
    if pkts.len() <= 1 {
        bump(fresh_stats(pkts[0]), pkts[0])
    } else {
        bump(accumulate(pkts.drop_last()), pkts.last())
    }
}

/// The sliding-window law, as tumbling windows: the counters of a flow are
/// exactly those of its packets since its latest window opened, at packet
/// `r`, and every one of those packets came no more than one window length
/// after packet `r`. Older packets of the flow count for nothing.
pub proof fn law_sliding_window(m: Map<FlowKey, FlowStats>, key: FlowKey, pkts: Seq<PacketSummary>, w: u64)
    requires
        !m.contains_key(key),
        pkts.len() >= 1,
    ensures
        exists|r: int|
            0 <= r < pkts.len() && replay(m, key, pkts, w)[key] == accumulate(#[trigger] pkts.skip(r)) && replay(
                m,
                key,
                pkts,
                w,
            )[key].window_start_micros == pkts[r].timestamp_micros && forall|i: int|
                r <= i < pkts.len() ==> within_window(pkts[r].timestamp_micros, w, #[trigger] pkts[i].timestamp_micros),
    decreases pkts.len(),
{
    let n = pkts.len();
    let last = pkts.last();
    if n == 1 {
        assert(pkts.drop_last() =~= Seq::<PacketSummary>::empty());
        assert(replay(m, key, pkts.drop_last(), w) == m);
        assert(pkts.skip(0) =~= pkts);
        assert(replay(m, key, pkts, w)[key] == accumulate(pkts.skip(0)));
        assert(within_window(pkts[0].timestamp_micros, w, pkts[0].timestamp_micros));
    } else {
        let p = pkts.drop_last();
        law_sliding_window(m, key, p, w);
        let r0 = choose|r: int|
            0 <= r < p.len() && replay(m, key, p, w)[key] == accumulate(#[trigger] p.skip(r)) && replay(
                m,
                key,
                p,
                w,
            )[key].window_start_micros == p[r].timestamp_micros && forall|i: int|
                r <= i < p.len() ==> within_window(p[r].timestamp_micros, w, #[trigger] p[i].timestamp_micros);
        let prev = replay(m, key, p, w);
        assert(prev.contains_key(key));
        assert(replay(m, key, pkts, w) == recorded(prev, key, last, w));
        if window_open(prev[key], w, last.timestamp_micros) {
            let q = pkts.skip(r0);
            assert(q.len() >= 2);
            assert(q.drop_last() =~= p.skip(r0));
            assert(q.last() == last);
            assert(accumulate(q) == bump(accumulate(p.skip(r0)), last));
            assert forall|i: int| r0 <= i < pkts.len() implies within_window(
                pkts[r0].timestamp_micros,
                w,
                #[trigger] pkts[i].timestamp_micros,
            ) by {
                if i < n - 1 {
                    assert(pkts[i] == p[i]);
                }
            }
            assert(pkts[r0] == p[r0]);
        } else {
            let r = n - 1;
            assert(pkts.skip(r) =~= seq![last]);
            assert(accumulate(pkts.skip(r)) == bump(fresh_stats(last), last));
            assert forall|i: int| r <= i < pkts.len() implies within_window(
                pkts[r].timestamp_micros,
                w,
                #[trigger] pkts[i].timestamp_micros,
            ) by {}
        }
    }
}

/// What a report at `now` counts of a flow, as a window over time: when
/// the flow's packets came in time order, none after `now`, and the flow
/// survives eviction at `now`, its counters are exactly those of a suffix
/// of its packets, and each packet of that suffix came within one window
/// length before `now`. Packets before the suffix count for nothing.
pub proof fn law_counts_lie_in_the_window(
    m: Map<FlowKey, FlowStats>,
    key: FlowKey,
    pkts: Seq<PacketSummary>,
    w: u64,
    now: i64,
)
    requires
        !m.contains_key(key),
        pkts.len() >= 1,
        forall|i: int, j: int| 0 <= i <= j < pkts.len() ==> pkts[i].timestamp_micros <= pkts[j].timestamp_micros,
        pkts.last().timestamp_micros <= now,
        restrict_within(replay(m, key, pkts, w), w, now).contains_key(key),
    ensures
        exists|r: int|
            0 <= r < pkts.len() && restrict_within(replay(m, key, pkts, w), w, now)[key] == accumulate(
                #[trigger] pkts.skip(r),
            ) && forall|i: int|
                r <= i < pkts.len() ==> now - w * 1_000_000 <= #[trigger] pkts[i].timestamp_micros <= now,
{
    law_sliding_window(m, key, pkts, w);
    let t = replay(m, key, pkts, w);
    let r = choose|r: int|
        0 <= r < pkts.len() && t[key] == accumulate(#[trigger] pkts.skip(r)) && t[key].window_start_micros
            == pkts[r].timestamp_micros && forall|i: int|
            r <= i < pkts.len() ==> within_window(pkts[r].timestamp_micros, w, #[trigger] pkts[i].timestamp_micros);
    assert(window_open(t[key], w, now));
    assert forall|i: int| r <= i < pkts.len() implies now - w * 1_000_000 <= #[trigger] pkts[i].timestamp_micros
        <= now by {
        assert(pkts[r].timestamp_micros <= pkts[i].timestamp_micros);
        assert(pkts[i].timestamp_micros <= pkts[pkts.len() - 1].timestamp_micros);
    }
}

/// Each snapshot agrees with the flow it was taken of: the `i`-th record
/// carries the key of the `i`-th flow and, for that key, exactly the counts,
/// the number of distinct ports (as a `usize`) and the window's first and
/// last timestamps that the table holds.
pub proof fn law_snapshots_agree_with_flows(c: SlidingWindowCounters)
    requires
        c.wf(),
    ensures
        c.records().len() == c.table().len(),
        forall|i: int| 0 <= i < c.records().len() ==> {
            let r = #[trigger] c.records()[i];
            &&& r.key == c.table()[i].0
            &&& c@.contains_key(r.key)
            &&& r.packet_count == c@[r.key].packet_count
            &&& r.byte_count == c@[r.key].byte_count
            &&& r.syn_count == c@[r.key].syn_count
            &&& r.ack_count == c@[r.key].ack_count
            &&& r.distinct_dst_ports == c@[r.key].distinct_dst_ports.len() as usize
            &&& r.window_start_micros == c@[r.key].window_start_micros
            &&& r.last_seen_micros == c@[r.key].last_seen_micros
        },
{
    let t = c.table();
    assert forall|i: int| 0 <= i < c.records().len() implies {
        let r = #[trigger] c.records()[i];
        &&& r.key == t[i].0
        &&& c@.contains_key(r.key)
        &&& r.packet_count == c@[r.key].packet_count
        &&& r.byte_count == c@[r.key].byte_count
        &&& r.syn_count == c@[r.key].syn_count
        &&& r.ack_count == c@[r.key].ack_count
        &&& r.distinct_dst_ports == c@[r.key].distinct_dst_ports.len() as usize
        &&& r.window_start_micros == c@[r.key].window_start_micros
        &&& r.last_seen_micros == c@[r.key].last_seen_micros
    } by {
        lemma_index_of_key(t, t[i].0);
        assert(index_of_key(t, t[i].0) == i);
        assert(c.records()[i] == record_of(t[i]));
    }
}

/// Per-flow state: counters, the set of destination ports seen and the
/// first and last timestamps of the window.
struct WindowState {
    packet_count: u64,
    syn_count: u64,
    ack_count: u64,
    byte_count: u64,
    distinct_dst_ports: HashSet<u16>,
    window_start_micros: i64,
    last_seen_micros: i64,
}

impl WindowState {
    spec fn stats(&self) -> FlowStats {
        FlowStats {
            packet_count: self.packet_count,
            syn_count: self.syn_count,
            ack_count: self.ack_count,
            byte_count: self.byte_count,
            distinct_dst_ports: self.distinct_dst_ports@,
            window_start_micros: self.window_start_micros,
            last_seen_micros: self.last_seen_micros,
        }
    }

    fn fresh(pkt: &PacketSummary) -> (st: WindowState)
        ensures
            st.stats() == fresh_stats(*pkt),
    {
        WindowState {
            packet_count: 0,
            syn_count: 0,
            ack_count: 0,
            byte_count: 0,
            distinct_dst_ports: HashSet::new(),
            window_start_micros: pkt.timestamp_micros,
            last_seen_micros: 0,
        }
    }

    fn bump(&mut self, pkt: &PacketSummary)
        requires
            bump_fits(old(self).stats(), *pkt),
        ensures
            final(self).stats() == bump(old(self).stats(), *pkt),
    {
        self.packet_count = self.packet_count + 1;
        self.byte_count = self.byte_count + pkt.payload_len as u64;
        self.last_seen_micros = pkt.timestamp_micros;
        if let Some(flags) = pkt.tcp_flags {
            if flags.syn {
                self.syn_count = self.syn_count + 1;
            }
            if flags.ack {
                self.ack_count = self.ack_count + 1;
            }
        }
        if let Some(port) = pkt.dst_port {
            self.distinct_dst_ports.insert(port);
        }
    }

    /// Whether this flow's window is still open at `now`.
    fn window_open_at(&self, window_secs: u64, now: i64) -> (open: bool)
        ensures
            open == window_open(self.stats(), window_secs, now),
    {
        let limit = (window_secs as i128) * 1_000_000;
        (now as i128) - (self.window_start_micros as i128) <= limit && (now as i128) - (
        self.last_seen_micros as i128) <= limit
    }

    fn record(&self, key: FlowKey) -> (r: FlowRecord)
        requires
            self.distinct_dst_ports@.finite(),
        ensures
            r == record_of((key, self.stats())),
    {
        FlowRecord {
            key,
            packet_count: self.packet_count,
            byte_count: self.byte_count,
            syn_count: self.syn_count,
            ack_count: self.ack_count,
            distinct_dst_ports: self.distinct_dst_ports.len(),
            window_start_micros: self.window_start_micros,
            last_seen_micros: self.last_seen_micros,
        }
    }
}

struct FlowEntry {
    key: FlowKey,
    state: WindowState,
}

spec fn entry_view(e: FlowEntry) -> (FlowKey, FlowStats) {
    (e.key, e.state.stats())
}

/// Per-flow counters for every flow seen, with the length of the window
/// that decides when a flow has gone stale.
pub struct SlidingWindowCounters {
    window_secs: u64,
    entries: Vec<FlowEntry>,
}

impl View for SlidingWindowCounters {
    type V = Map<FlowKey, FlowStats>;

    open spec fn view(&self) -> Map<FlowKey, FlowStats> {
        table_map(self.table())
    }
}

impl SlidingWindowCounters {
    /// The flows in the order they were first seen.
    pub closed spec fn table(&self) -> Seq<(FlowKey, FlowStats)> {
        self.entries@.map_values(|e: FlowEntry| entry_view(e))
    }

    /// The window length, in seconds.
    pub closed spec fn window_length(&self) -> u64 {
        self.window_secs
    }

    /// The table is well formed: one entry per key, finite port sets.
    pub open spec fn wf(&self) -> bool {
        keys_unique(self.table()) && ports_finite(self.table())
    }

    /// The snapshots of all flows, in table order.
    pub open spec fn records(&self) -> Seq<FlowRecord> {
        records_of(self.table())
    }

    /// Counting `pkt` under `key` overflows no counter.
    pub open spec fn record_fits(&self, key: FlowKey, pkt: PacketSummary) -> bool {
        bump_fits(current_stats(self@, key, pkt, self.window_length()), pkt)
    }

    /// An empty table with the given window length.
    pub fn new(window_secs: u64) -> (c: Self)
        ensures
            c.wf(),
            c@ == Map::<FlowKey, FlowStats>::empty(),
            c.table() == Seq::<(FlowKey, FlowStats)>::empty(),
            c.window_length() == window_secs,
    {
        let c = SlidingWindowCounters { window_secs, entries: Vec::new() };
        assert(c.table() =~= Seq::<(FlowKey, FlowStats)>::empty());
        assert(c@ =~= Map::<FlowKey, FlowStats>::empty());
        c
    }

    /// Position of `key` in the table.
    fn find(&self, key: &FlowKey) -> (r: Option<usize>)
        requires
            self.wf(),
        ensures
            match r {
                Some(i) => i == index_of_key(self.table(), *key) && i < self.table().len(),
                None => index_of_key(self.table(), *key) == -1,
            },
    {
        let n = self.entries.len();
        let mut i: usize = 0;
        while i < n
            invariant
                self.wf(),
                n == self.entries.len(),
                self.table().len() == n,
                i <= n,
                forall|j: int| 0 <= j < i ==> self.table()[j].0 != *key,
            decreases n - i,
        {
            if self.entries[i].key == *key {
                proof {
                    assert(self.table()[i as int].0 == *key);
                    lemma_index_of_key(self.table(), *key);
                }
                return Some(i);
            }
            i = i + 1;
        }
        proof {
            lemma_index_of_key(self.table(), *key);
        }
        None
    }

    /// Number of flows in the table.
    pub fn flow_count(&self) -> (n: usize)
        requires
            self.wf(),
        ensures
            n == self@.dom().len(),
            n == self.table().len(),
    {
        proof {
            self.lemma_dom_len();
        }
        self.entries.len()
    }

    proof fn lemma_dom_len(&self)
        requires
            self.wf(),
        ensures
            self@.dom().finite(),
            self@.dom().len() == self.table().len(),
    {
        let s = self.table();
        let keys = s.map_values(|e: (FlowKey, FlowStats)| e.0);
        assert forall|i: int, j: int| 0 <= i < keys.len() && 0 <= j < keys.len() && i != j implies keys[i] != keys[j] by {}
        assert(keys.no_duplicates());
        keys.unique_seq_to_set();
        assert forall|k: FlowKey| #[trigger] self@.dom().contains(k) == keys.to_set().contains(k) by {
            lemma_index_of_key(s, k);
            if keys.to_set().contains(k) {
                let j = choose|j: int| 0 <= j < keys.len() && keys[j] == k;
                assert(s[j].0 == k);
            }
            if index_of_key(s, k) >= 0 {
                assert(keys[index_of_key(s, k)] == k);
            }
        }
        assert(self@.dom() =~= keys.to_set());
    }

    /// Index of the flow with `key`, which must be in the table.
    fn index_of(&self, key: &FlowKey) -> (i: usize)
        requires
            self.wf(),
            self@.contains_key(*key),
        ensures
            i < self.table().len(),
            self.table()[i as int].0 == *key,
            self.table()[i as int].1 == self@[*key],
    {
        proof {
            lemma_index_of_key(self.table(), *key);
        }
        match self.find(key) {
            Some(i) => i,
            None => {
                proof {
                    assert(false);
                }
                0
            },
        }
    }

    /// Packets counted under `key`, which must be in the table.
    pub fn packet_count(&self, key: &FlowKey) -> (n: u64)
        requires
            self.wf(),
            self@.contains_key(*key),
        ensures
            n == self@[*key].packet_count,
    {
        let i = self.index_of(key);
        self.entries[i].state.packet_count
    }

    /// Payload bytes counted under `key`, which must be in the table.
    pub fn byte_count(&self, key: &FlowKey) -> (n: u64)
        requires
            self.wf(),
            self@.contains_key(*key),
        ensures
            n == self@[*key].byte_count,
    {
        let i = self.index_of(key);
        self.entries[i].state.byte_count
    }

    /// Timestamp of the first packet counted under `key`, which must be in
    /// the table.
    pub fn window_start_micros(&self, key: &FlowKey) -> (t: i64)
        requires
            self.wf(),
            self@.contains_key(*key),
        ensures
            t == self@[*key].window_start_micros,
    {
        let i = self.index_of(key);
        self.entries[i].state.window_start_micros
    }

    /// Timestamp of the latest packet counted under `key`, which must be in
    /// the table.
    pub fn last_seen_micros(&self, key: &FlowKey) -> (t: i64)
        requires
            self.wf(),
            self@.contains_key(*key),
        ensures
            t == self@[*key].last_seen_micros,
    {
        let i = self.index_of(key);
        self.entries[i].state.last_seen_micros
    }

    /// SYN segments counted under `key`, which must be in the table.
    pub fn syn_count(&self, key: &FlowKey) -> (n: u64)
        requires
            self.wf(),
            self@.contains_key(*key),
        ensures
            n == self@[*key].syn_count,
    {
        let i = self.index_of(key);
        self.entries[i].state.syn_count
    }

    /// ACK segments counted under `key`, which must be in the table.
    pub fn ack_count(&self, key: &FlowKey) -> (n: u64)
        requires
            self.wf(),
            self@.contains_key(*key),
        ensures
            n == self@[*key].ack_count,
    {
        let i = self.index_of(key);
        self.entries[i].state.ack_count
    }

    /// Number of different destination ports seen under `key`, which must
    /// be in the table.
    pub fn distinct_dst_ports_count(&self, key: &FlowKey) -> (n: usize)
        requires
            self.wf(),
            self@.contains_key(*key),
        ensures
            n == self@[*key].distinct_dst_ports.len(),
    {
        let i = self.index_of(key);
        proof {
            assert(self.table()[i as int].1.distinct_dst_ports.finite());
        }
        self.entries[i].state.distinct_dst_ports.len()
    }

    /// The destination ports seen by the flow at position `i` of the table,
    /// each once, in no particular order.
    pub fn dst_ports_at(&self, i: usize) -> (ports: Vec<u16>)
        requires
            self.wf(),
            i < self.table().len(),
        ensures
            ports@.to_set() == self.table()[i as int].1.distinct_dst_ports,
            ports@.no_duplicates(),
    {
        let set = &self.entries[i].state.distinct_dst_ports;
        let mut ports: Vec<u16> = Vec::new();
        for port in it: set.iter()
            invariant
                ports@ == it.seq().take(it.index() as int).unref(),
                it.seq().unref().to_set() == set@,
                it.seq().no_duplicates(),
                it.index() == it.seq().len() ==> it.seq().take(it.index() as int).unref() == it.seq().unref(),
        {
            ports.push(*port);
        }
        ports
    }

    /// Whether counting `pkt` under `key` would leave every counter within
    /// 64 bits.
    pub fn fits(&self, key: &FlowKey, pkt: &PacketSummary) -> (ok: bool)
        requires
            self.wf(),
        ensures
            ok == self.record_fits(*key, *pkt),
    {
        proof {
            lemma_index_of_key(self.table(), *key);
        }
        let (packets, syns, acks, bytes) = match self.find(key) {
            Some(i) => {
                let st = &self.entries[i].state;
                if st.window_open_at(self.window_secs, pkt.timestamp_micros) {
                    (st.packet_count, st.syn_count, st.ack_count, st.byte_count)
                } else {
                    (0, 0, 0, 0)
                }
            },
            None => (0, 0, 0, 0),
        };
        let (syn, ack) = match pkt.tcp_flags {
            Some(f) => (f.syn, f.ack),
            None => (false, false),
        };
        packets < u64::MAX && bytes <= u64::MAX - pkt.payload_len as u64 && (!syn || syns < u64::MAX) && (!ack
            || acks < u64::MAX)
    }

    /// Counts `pkt` into the flow `key`, creating the flow if it is new and
    /// restarting its window, dropping the counts of the old one, when that
    /// window has closed by the packet's time.
    pub fn record(&mut self, key: FlowKey, pkt: &PacketSummary)
        requires
            old(self).wf(),
            old(self).record_fits(key, *pkt),
        ensures
            final(self).wf(),
            final(self)@ == recorded(old(self)@, key, *pkt, old(self).window_length()),
            old(self)@.contains_key(key) && window_open(old(self)@[key], old(self).window_length(), pkt.timestamp_micros)
                ==> final(self)@[key] == bump(old(self)@[key], *pkt),
            !(old(self)@.contains_key(key) && window_open(old(self)@[key], old(self).window_length(), pkt.timestamp_micros))
                ==> final(self)@[key] == bump(fresh_stats(*pkt), *pkt),
            final(self).table() == record_table(old(self).table(), key, *pkt, old(self).window_length()),
            final(self).window_length() == old(self).window_length(),
    {
        let ghost s = self.table();
        proof {
            lemma_index_of_key(s, key);
            lemma_record_table_map(s, key, *pkt, self.window_secs);
        }
        match self.find(&key) {
            Some(i) => {
                let mut slot = FlowEntry { key, state: WindowState::fresh(pkt) };
                self.entries.set_and_swap(i, &mut slot);
                if !slot.state.window_open_at(self.window_secs, pkt.timestamp_micros) {
                    // The window has closed: the packet opens a new one.
                    slot.state = WindowState::fresh(pkt);
                }
                slot.state.bump(pkt);
                self.entries.set_and_swap(i, &mut slot);
                assert(self.table() =~= record_table(s, key, *pkt, self.window_secs));
            },
            None => {
                let mut state = WindowState::fresh(pkt);
                state.bump(pkt);
                self.entries.push(FlowEntry { key, state });
                assert(self.table() =~= record_table(s, key, *pkt, self.window_secs));
            },
        }
    }
    /// Snapshots of all flows, in table order.
    pub fn flows(&self) -> (r: Vec<FlowRecord>)
        requires
            self.wf(),
        ensures
            r@ == self.records(),
    {
        let n = self.entries.len();
        let mut out: Vec<FlowRecord> = Vec::new();
        let mut i: usize = 0;
        while i < n
            invariant
                self.wf(),
                n == self.entries.len(),
                n == self.table().len(),
                i <= n,
                out@ == self.records().take(i as int),
            decreases n - i,
        {
            proof {
                assert(self.table()[i as int].1.distinct_dst_ports.finite());
            }
            let entry = &self.entries[i];
            let rec = entry.state.record(entry.key);
            out.push(rec);
            i = i + 1;
            assert(out@ =~= self.records().take(i as int));
        }
        assert(out@ =~= self.records());
        out
    }

    /// Drops every flow whose window has closed by `now_micros` (it opened,
    /// or the flow was last seen, more than one window length earlier); the
    /// other flows are kept unchanged and in order.
    pub fn evict_stale(&mut self, now_micros: i64)
        requires
            old(self).wf(),
        ensures
            final(self).wf(),
            final(self).table() == retain_within(old(self).table(), old(self).window_length(), now_micros),
            final(self)@ == restrict_within(old(self)@, old(self).window_length(), now_micros),
            final(self).window_length() == old(self).window_length(),
    {
        let ghost orig = self.table();
        let ghost window = self.window_secs;
        proof {
            lemma_retain_within(orig, window, now_micros);
        }
        let mut pending: Vec<FlowEntry> = Vec::new();
        std::mem::swap(&mut pending, &mut self.entries);
        let ghost orig_entries = pending@;
        let n = pending.len();
        let mut i: usize = 0;
        while i < n
            invariant
                n == pending.len(),
                n == orig.len(),
                i <= n,
                self.window_secs == window,
                orig == orig_entries.map_values(|e: FlowEntry| entry_view(e)),
                forall|j: int| i <= j < n ==> pending@[j] == orig_entries[j],
                self.table() == retain_within(orig.take(i as int), window, now_micros),
            decreases n - i,
        {
            let mut slot = FlowEntry {
                key: FlowKey {
                    src_ip: IpAddr::V4(crate::net::Ipv4Addr { a: 0, b: 0, c: 0, d: 0 }),
                    dst_ip: IpAddr::V4(crate::net::Ipv4Addr { a: 0, b: 0, c: 0, d: 0 }),
                    protocol: Protocol::Other(0),
                },
                state: WindowState {
                    packet_count: 0,
                    syn_count: 0,
                    ack_count: 0,
                    byte_count: 0,
                    distinct_dst_ports: HashSet::new(),
                    window_start_micros: 0,
                    last_seen_micros: 0,
                },
            };
            pending.set_and_swap(i, &mut slot);
            assert(entry_view(slot) == orig[i as int]);
            assert(orig.take(i as int + 1).drop_last() =~= orig.take(i as int));
            if slot.state.window_open_at(self.window_secs, now_micros) {
                self.entries.push(slot);
            }
            i = i + 1;
            assert(self.table() =~= retain_within(orig.take(i as int), window, now_micros));
        }
        assert(orig.take(n as int) =~= orig);
    }
}

} // verus!
