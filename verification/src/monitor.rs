//! The capture-to-alert pipeline's decisions: which frames are counted,
//! when the flow table is due for a report, and what a report holds. The
//! program around it polls the frame source, prints the reports and keeps
//! wall-clock time.
use vstd::prelude::*;

use crate::capture::RawFrame;
use crate::detect::port_scan::{self, reports_port_scans};
use crate::detect::syn_flood::{self, ack_total, reports_syn_floods, syn_total, totals_fit};
use crate::detect::{Alert, DetectorConfig};
use crate::flow::{
    record_of, record_table, recorded, records_of, restrict_within, retain_within, window_open, within_window, FlowKey,
    FlowRecord, FlowStats, SlidingWindowCounters,
};
use crate::net::IpAddr;
use crate::parser::{parse_frame, spec_parse_frame, PacketSummary, MICROS_PER_SEC};

verus! {

/// The time a schedule in state `next` (the due time, once known) regards
/// as due when asked at `now`.
pub open spec fn due_time(next: Option<i64>, interval: i64, now: i64) -> int {
    match next {
        Some(due) => due as int,
        None => now + interval,
    }
}

/// One answer of the report schedule in state `next`, asked at `now`:
/// whether a report is due, and the schedule's next state.
pub open spec fn schedule_step(next: Option<i64>, interval: i64, now: i64) -> (bool, Option<i64>) {
    let due = due_time(next, interval, now);
    if now >= due {
        (true, Some((due + interval) as i64))
    } else {
        (false, Some(due as i64))
    }
}

/// Whether a periodic report is due at `now_micros`. The first call fixes
/// the first due time one interval after its `now_micros`; each time the
/// report comes due, the next due time moves one interval further.
pub fn is_due(dump_micros: &mut Option<i64>, dump_interval: i64, now_micros: i64) -> (due_now: bool)
    requires
        i64::MIN <= now_micros + dump_interval <= i64::MAX,
        now_micros >= due_time(*old(dump_micros), dump_interval, now_micros) ==> i64::MIN <= due_time(
            *old(dump_micros),
            dump_interval,
            now_micros,
        ) + dump_interval <= i64::MAX,
    ensures
        due_now == (now_micros >= due_time(*old(dump_micros), dump_interval, now_micros)),
        *final(dump_micros) == if due_now {
            Some((due_time(*old(dump_micros), dump_interval, now_micros) + dump_interval) as i64)
        } else {
            Some(due_time(*old(dump_micros), dump_interval, now_micros) as i64)
        },
        (due_now, *final(dump_micros)) == schedule_step(*old(dump_micros), dump_interval, now_micros),
{
    let first = now_micros + dump_interval;
    let due = match *dump_micros {
        Some(d) => d,
        None => first,
    };
    if now_micros >= due {
        *dump_micros = Some(due + dump_interval);
        true
    } else {
        *dump_micros = Some(due);
        false
    }
}

/// The schedule's state after `k` answers, all asked at the same time `now`.
pub open spec fn schedule_after(next: Option<i64>, interval: i64, now: i64, k: nat) -> Option<i64>
    decreases k,
{
    if k == 0 {
        next
    } else {
        schedule_step(schedule_after(next, interval, now, (k - 1) as nat), interval, now).1
    }
}

/// How many reports a schedule due at `due` owes at `now`: every interval
/// boundary from `due` up to and including `now`.
pub open spec fn reports_owed(due: i64, interval: i64, now: i64) -> nat {
    if now >= due {
        ((now - due) / (interval as int) + 1) as nat
    } else {
        0
    }
}

proof fn lemma_owed_bounds(d: i64, interval: i64, now: i64)
    requires
        interval > 0,
    ensures
        reports_owed(d, interval, now) == 0 ==> now < d,
        reports_owed(d, interval, now) > 0 ==> d + (reports_owed(d, interval, now) - 1) * interval <= now < d
            + reports_owed(d, interval, now) * interval,
{
    if now >= d {
        let x = now - d;
        let q = x / (interval as int);
        vstd::arithmetic::div_mod::lemma_fundamental_div_mod(x, interval as int);
        vstd::arithmetic::div_mod::lemma_mod_pos_bound(x, interval as int);
        vstd::arithmetic::div_mod::lemma_div_pos_is_pos(x, interval as int);
        assert(reports_owed(d, interval, now) == q + 1);
        assert(q * interval <= x < (q + 1) * interval) by (nonlinear_arith)
            requires
                x == interval * q + x % (interval as int),
                0 <= x % (interval as int) < interval,
        ;
    }
}

proof fn lemma_schedule_catch_up(d: i64, interval: i64, now: i64, k: nat)
    requires
        interval > 0,
        now + interval <= i64::MAX,
        k <= reports_owed(d, interval, now),
    ensures
        schedule_after(Some(d), interval, now, k) == Some((d + k * interval) as i64),
        i64::MIN <= d + k * interval <= i64::MAX,
        k < reports_owed(d, interval, now) ==> d + k * interval <= now,
        k == reports_owed(d, interval, now) ==> d + k * interval > now,
    decreases k,
{
    let n = reports_owed(d, interval, now);
    lemma_owed_bounds(d, interval, now);
    assert(0 <= k * interval) by (nonlinear_arith)
        requires
            interval > 0,
    ;
    if k < n {
        assert(k * interval <= (n - 1) * interval) by (nonlinear_arith)
            requires
                k <= n - 1,
                interval > 0,
        ;
    }
    if k == n && n > 0 {
        assert(k * interval == (n - 1) * interval + interval) by (nonlinear_arith)
            requires
                k == n,
        ;
    }
    if k > 0 {
        let j = (k - 1) as nat;
        lemma_schedule_catch_up(d, interval, now, j);
        let prev = (d + j * interval) as i64;
        assert(j * interval + interval == k * interval) by (nonlinear_arith)
            requires
                j + 1 == k,
        ;
        assert(prev == d + j * interval);
        assert(schedule_after(Some(d), interval, now, k) == schedule_step(Some(prev), interval, now).1);
        assert(schedule_step(Some(prev), interval, now).1 == Some((prev + interval) as i64));
        assert(prev + interval == d + k * interval);
    } else {
        assert(k * interval == 0) by (nonlinear_arith)
            requires
                k == 0,
        ;
        assert((d + k * interval) as i64 == d);
    }
}

/// Asked again and again at one time `now`, a schedule due at `d` answers
/// "due" exactly `reports_owed(d, interval, now)` times in a row, then "not
/// due"; its next due time is then `d` plus that many intervals, past `now`.
pub proof fn law_repeated_due_checks(d: i64, interval: i64, now: i64)
    requires
        interval > 0,
        now + interval <= i64::MAX,
    ensures
        forall|k: nat| k < reports_owed(d, interval, now) ==> #[trigger] schedule_step(
            schedule_after(Some(d), interval, now, k),
            interval,
            now,
        ).0,
        !schedule_step(schedule_after(Some(d), interval, now, reports_owed(d, interval, now)), interval, now).0,
        schedule_after(Some(d), interval, now, reports_owed(d, interval, now)) == Some(
            (d + reports_owed(d, interval, now) * interval) as i64,
        ),
        d + reports_owed(d, interval, now) * interval > now,
{
    let n = reports_owed(d, interval, now);
    assert forall|k: nat| k < n implies #[trigger] schedule_step(schedule_after(Some(d), interval, now, k), interval, now).0 by {
        lemma_schedule_catch_up(d, interval, now, k);
    }
    lemma_schedule_catch_up(d, interval, now, n);
}

/// One periodic report: the flow table as it stood and the alerts raised
/// over it.
pub struct TickReport {
    pub now_micros: i64,
    pub flows: Vec<FlowRecord>,
    pub syn_flood_alerts: Vec<Alert>,
    pub port_scan_alerts: Vec<Alert>,
}

/// `report` is the report over the flow table `t` at `now` under `cfg`.
pub open spec fn reports(report: TickReport, t: Seq<(FlowKey, FlowStats)>, cfg: DetectorConfig, now: i64) -> bool {
    &&& report.now_micros == now
    &&& report.flows@ == records_of(t)
    &&& reports_syn_floods(report.syn_flood_alerts@, records_of(t), cfg.syn_without_ack_threshold, now)
    &&& reports_port_scans(report.port_scan_alerts@, t, cfg.distinct_ports_threshold, now)
}

/// Drops the flows whose window has closed by `now_micros`, then snapshots
/// the remaining flows and runs both detectors over them, so that every
/// count a report rests on lies inside the window that is open at
/// `now_micros`.
pub fn tick(counters: &mut SlidingWindowCounters, cfg: &DetectorConfig, now_micros: i64) -> (report: TickReport)
    requires
        old(counters).wf(),
        totals_fit(records_of(retain_within(old(counters).table(), old(counters).window_length(), now_micros))),
    ensures
        reports(report, retain_within(old(counters).table(), old(counters).window_length(), now_micros), *cfg, now_micros),
        final(counters).wf(),
        final(counters).table() == retain_within(old(counters).table(), old(counters).window_length(), now_micros),
        final(counters)@ == restrict_within(old(counters)@, old(counters).window_length(), now_micros),
        final(counters).window_length() == old(counters).window_length(),
{
    counters.evict_stale(now_micros);
    let flows = counters.flows();
    let syn_flood_alerts = syn_flood::check(counters, cfg, now_micros);
    let port_scan_alerts = port_scan::check(counters, cfg, now_micros);
    TickReport { now_micros, flows, syn_flood_alerts, port_scan_alerts }
}

/// Every flow in a report made at `now` from the table `t` with windows of
/// `w` seconds opened its window, and was last seen, no more than one window
/// length before `now`: a report counts no packet older than that.
pub proof fn law_report_counts_only_the_open_window(
    report: TickReport,
    t: Seq<(FlowKey, FlowStats)>,
    cfg: DetectorConfig,
    w: u64,
    now: i64,
)
    requires
        reports(report, retain_within(t, w, now), cfg, now),
    ensures
        forall|i: int| 0 <= i < report.flows@.len() ==> {
            &&& within_window(#[trigger] report.flows@[i].window_start_micros, w, now)
            &&& within_window(report.flows@[i].last_seen_micros, w, now)
        },
{
    lemma_retained_windows_open(t, w, now);
    assert forall|i: int| 0 <= i < report.flows@.len() implies within_window(
        #[trigger] report.flows@[i].window_start_micros,
        w,
        now,
    ) && within_window(report.flows@[i].last_seen_micros, w, now) by {
        assert(report.flows@[i] == record_of(retain_within(t, w, now)[i]));
    }
}

/// Every flow kept by `retain_within` has its window open at `now`.
proof fn lemma_retained_windows_open(t: Seq<(FlowKey, FlowStats)>, w: u64, now: i64)
    ensures
        forall|i: int| 0 <= i < retain_within(t, w, now).len() ==> window_open(
            #[trigger] retain_within(t, w, now)[i].1,
            w,
            now,
        ),
    decreases t.len(),
{
    if t.len() > 0 {
        let p = t.drop_last();
        lemma_retained_windows_open(p, w, now);
        let r = retain_within(p, w, now);
        if window_open(t.last().1, w, now) {
            assert forall|i: int| 0 <= i < r.push(t.last()).len() implies window_open(
                #[trigger] r.push(t.last())[i].1,
                w,
                now,
            ) by {
                if i < r.len() {
                    assert(r.push(t.last())[i] == r[i]);
                }
            }
        }
    }
}

/// Dropping closed windows never raises a per-destination SYN or ACK total.
proof fn lemma_retain_lowers_totals(t: Seq<(FlowKey, FlowStats)>, w: u64, now: i64, d: IpAddr)
    ensures
        syn_total(records_of(retain_within(t, w, now)), d) <= syn_total(records_of(t), d),
        ack_total(records_of(retain_within(t, w, now)), d) <= ack_total(records_of(t), d),
    decreases t.len(),
{
    if t.len() > 0 {
        let p = t.drop_last();
        let e = t.last();
        lemma_retain_lowers_totals(p, w, now, d);
        assert(records_of(t).drop_last() =~= records_of(p));
        let r = retain_within(p, w, now);
        if window_open(e.1, w, now) {
            assert(records_of(r.push(e)).drop_last() =~= records_of(r));
        }
    }
}

/// The flow key of a packet: its addresses and transport protocol.
pub open spec fn key_of(pkt: PacketSummary) -> FlowKey {
    FlowKey { src_ip: pkt.src_ip, dst_ip: pkt.dst_ip, protocol: pkt.protocol }
}

/// A packet is counted under the flow of its own source address,
/// destination address and transport protocol.
pub proof fn law_packet_keyed_by_its_addresses(pkt: PacketSummary)
    ensures
        key_of(pkt).src_ip == pkt.src_ip,
        key_of(pkt).dst_ip == pkt.dst_ip,
        key_of(pkt).protocol == pkt.protocol,
        forall|q: PacketSummary| #[trigger] key_of(q) == key_of(pkt) <==> (q.src_ip == pkt.src_ip && q.dst_ip
            == pkt.dst_ip && q.protocol == pkt.protocol),
{
}

/// Arithmetic that the pipeline cannot carry out.
#[derive(Debug, Clone, Copy, PartialEq, Eq, Structural)]
pub enum MonitorError {
    /// The report interval in microseconds does not fit in an `i64`.
    IntervalOverflow,
    /// A flow counter would exceed 64 bits.
    CounterOverflow,
    /// The report schedule would pass the end of the `i64` timeline.
    ScheduleOverflow,
    /// A per-destination SYN or ACK total exceeds 64 bits.
    TotalsOverflow,
}

/// The flow table, the thresholds and the report schedule.
pub struct Monitor {
    counters: SlidingWindowCounters,
    cfg: DetectorConfig,
    dump_interval_micros: i64,
    next_dump_micros: Option<i64>,
}

/// The report interval in microseconds, `secs` taken as a signed number.
pub open spec fn interval_micros(secs: u64) -> int {
    (secs as i64) * MICROS_PER_SEC
}

impl Monitor {
    pub closed spec fn flow_table(&self) -> SlidingWindowCounters {
        self.counters
    }

    pub closed spec fn config(&self) -> DetectorConfig {
        self.cfg
    }

    pub closed spec fn interval(&self) -> i64 {
        self.dump_interval_micros
    }

    pub closed spec fn next_due(&self) -> Option<i64> {
        self.next_dump_micros
    }

    pub open spec fn wf(&self) -> bool {
        self.flow_table().wf()
    }

    /// Whether a report is due when the schedule is asked at `now`.
    pub open spec fn due_at(&self, now: i64) -> bool {
        schedule_step(self.next_due(), self.interval(), now).0
    }

    /// The schedule's next due time once it has been asked at `now`.
    pub open spec fn next_due_after(&self, now: i64) -> Option<i64> {
        schedule_step(self.next_due(), self.interval(), now).1
    }

    /// Whether the schedule can answer a query at `now` without overflow.
    pub open spec fn schedule_fits(&self, now: i64) -> bool {
        &&& i64::MIN <= now + self.interval() <= i64::MAX
        &&& now >= due_time(self.next_due(), self.interval(), now) ==> i64::MIN <= due_time(
            self.next_due(),
            self.interval(),
            now,
        ) + self.interval() <= i64::MAX
    }

    /// A pipeline with an empty flow table, whose window is the configured
    /// one and whose first report comes one interval after the first
    /// timestamp it sees.
    pub fn new(cfg: DetectorConfig) -> (r: Result<Monitor, MonitorError>)
        ensures
            r is Ok <==> i64::MIN <= interval_micros(cfg.dump_interval_secs) <= i64::MAX,
            r matches Ok(m) ==> {
                &&& m.wf()
                &&& m.flow_table()@ == Map::<FlowKey, crate::flow::FlowStats>::empty()
                &&& m.flow_table().window_length() == cfg.window_secs
                &&& m.config() == cfg
                &&& m.interval() == interval_micros(cfg.dump_interval_secs)
                &&& m.next_due() == None::<i64>
            },
            r matches Err(e) ==> e == MonitorError::IntervalOverflow,
    {
        let secs = cfg.dump_interval_secs as i64;
        match secs.checked_mul(MICROS_PER_SEC) {
            Some(interval) => Ok(
                Monitor {
                    counters: SlidingWindowCounters::new(cfg.window_secs),
                    cfg,
                    dump_interval_micros: interval,
                    next_dump_micros: None,
                },
            ),
            None => Err(MonitorError::IntervalOverflow),
        }
    }

    /// The flow table.
    pub fn counters(&self) -> (c: &SlidingWindowCounters)
        ensures
            *c == self.flow_table(),
    {
        &self.counters
    }

    /// Reports if one is due at `now`, then advances the schedule.
    fn report_if_due(&mut self, now: i64) -> (r: Result<Option<TickReport>, MonitorError>)
        requires
            old(self).wf(),
        ensures
            final(self).wf(),
            final(self).config() == old(self).config(),
            final(self).interval() == old(self).interval(),
            !old(self).schedule_fits(now) ==> r == Err::<Option<TickReport>, MonitorError>(MonitorError::ScheduleOverflow)
                && *final(self) == *old(self),
            final(self).flow_table().window_length() == old(self).flow_table().window_length(),
            old(self).schedule_fits(now) ==> {
                let due = old(self).due_at(now);
                &&& final(self).next_due() == old(self).next_due_after(now)
                &&& !due ==> r == Ok::<Option<TickReport>, MonitorError>(None) && final(self).flow_table() == old(self).flow_table()
                &&& due && !totals_fit(old(self).flow_table().records()) ==> r == Err::<Option<TickReport>, MonitorError>(MonitorError::TotalsOverflow)
                    && final(self).flow_table() == old(self).flow_table()
                &&& due && totals_fit(old(self).flow_table().records()) ==> {
                    &&& (r matches Ok(Some(report)) && reports(
                        report,
                        retain_within(old(self).flow_table().table(), old(self).flow_table().window_length(), now),
                        old(self).config(),
                        now,
                    ))
                    &&& final(self).flow_table()@ == restrict_within(old(self).flow_table()@, old(self).flow_table().window_length(), now)
                }
            },
    {
        let interval = self.dump_interval_micros;
        let fits = match now.checked_add(interval) {
            None => false,
            Some(first) => {
                let due = match self.next_dump_micros {
                    Some(d) => d,
                    None => first,
                };
                now < due || due.checked_add(interval).is_some()
            },
        };
        if !fits {
            return Err(MonitorError::ScheduleOverflow);
        }
        if !is_due(&mut self.next_dump_micros, interval, now) {
            return Ok(None);
        }
        if !syn_flood::totals_in_range(&self.counters) {
            return Err(MonitorError::TotalsOverflow);
        }
        proof {
            let t = self.counters.table();
            let w = self.counters.window_length();
            assert forall|d: IpAddr| #[trigger] syn_total(records_of(retain_within(t, w, now)), d) <= u64::MAX
                && ack_total(records_of(retain_within(t, w, now)), d) <= u64::MAX by {
                lemma_retain_lowers_totals(t, w, now, d);
                assert(syn_total(records_of(t), d) <= u64::MAX);
            }
        }
        let report = tick(&mut self.counters, &self.cfg, now);
        Ok(Some(report))
    }

    /// Handles one captured frame: frames that dissect to an IP packet are
    /// counted into their flow, and the frame's timestamp drives the report
    /// schedule. Frames that do not dissect change nothing.
    pub fn on_frame(&mut self, frame: &RawFrame) -> (r: Result<Option<TickReport>, MonitorError>)
        requires
            old(self).wf(),
        ensures
            final(self).wf(),
            final(self).config() == old(self).config(),
            final(self).interval() == old(self).interval(),
            spec_parse_frame(frame.data@, frame.timestamp_micros) is None ==> r == Ok::<Option<TickReport>, MonitorError>(None) && *final(self)
                == *old(self),
            spec_parse_frame(frame.data@, frame.timestamp_micros) matches Some(pkt) ==> {
                let key = key_of(pkt);
                &&& !old(self).flow_table().record_fits(key, pkt) ==> r == Err::<Option<TickReport>, MonitorError>(
                    MonitorError::CounterOverflow,
                ) && *final(self) == *old(self)
                &&& old(self).flow_table().record_fits(key, pkt) ==> {
                    let counted = recorded(old(self).flow_table()@, key, pkt, old(self).flow_table().window_length());
                    let now = pkt.timestamp_micros;
                    let due = old(self).due_at(now);
                    &&& final(self).flow_table().window_length() == old(self).flow_table().window_length()
                    &&& !old(self).schedule_fits(now) ==> r == Err::<Option<TickReport>, MonitorError>(
                        MonitorError::ScheduleOverflow,
                    ) && final(self).flow_table()@ == counted && final(self).next_due() == old(self).next_due()
                    &&& old(self).schedule_fits(now) ==> final(self).next_due() == old(self).next_due_after(now)
                    &&& old(self).schedule_fits(now) && !due ==> r == Ok::<Option<TickReport>, MonitorError>(None) && final(self).flow_table()@
                        == counted
                    &&& old(self).schedule_fits(now) && due ==> {
                        let after = record_table(old(self).flow_table().table(), key, pkt, old(self).flow_table().window_length());
                        &&& totals_fit(records_of(after)) ==> (r matches Ok(Some(report)) && reports(
                            report,
                            retain_within(after, old(self).flow_table().window_length(), now),
                            old(self).config(),
                            now,
                        )) && final(self).flow_table()@ == restrict_within(
                            counted,
                            old(self).flow_table().window_length(),
                            now,
                        )
                        &&& !totals_fit(records_of(after)) ==> r == Err::<Option<TickReport>, MonitorError>(
                            MonitorError::TotalsOverflow,
                        ) && final(self).flow_table()@ == counted
                    }
                }
            },
    {
        let summary = match parse_frame(frame.data.as_slice(), frame.timestamp_micros) {
            Some(s) => s,
            None => return Ok(None),
        };
        let key = FlowKey { src_ip: summary.src_ip, dst_ip: summary.dst_ip, protocol: summary.protocol };
        if !self.counters.fits(&key, &summary) {
            return Err(MonitorError::CounterOverflow);
        }
        self.counters.record(key, &summary);
        self.report_if_due(summary.timestamp_micros)
    }

    /// Handles a quiet moment at wall-clock time `now_micros`: reports if
    /// one is due.
    pub fn on_idle(&mut self, now_micros: i64) -> (r: Result<Option<TickReport>, MonitorError>)
        requires
            old(self).wf(),
        ensures
            final(self).wf(),
            final(self).config() == old(self).config(),
            final(self).interval() == old(self).interval(),
            !old(self).schedule_fits(now_micros) ==> r == Err::<Option<TickReport>, MonitorError>(
                MonitorError::ScheduleOverflow,
            ) && *final(self) == *old(self),
            final(self).flow_table().window_length() == old(self).flow_table().window_length(),
            old(self).schedule_fits(now_micros) ==> {
                let due = old(self).due_at(now_micros);
                &&& final(self).next_due() == old(self).next_due_after(now_micros)
                &&& !due ==> r == Ok::<Option<TickReport>, MonitorError>(None) && final(self).flow_table() == old(self).flow_table()
                &&& due && totals_fit(old(self).flow_table().records()) ==> (r matches Ok(Some(report)) && reports(
                    report,
                    retain_within(old(self).flow_table().table(), old(self).flow_table().window_length(), now_micros),
                    old(self).config(),
                    now_micros,
                )) && final(self).flow_table()@ == restrict_within(
                    old(self).flow_table()@,
                    old(self).flow_table().window_length(),
                    now_micros,
                )
                &&& due && !totals_fit(old(self).flow_table().records()) ==> r
                    == Err::<Option<TickReport>, MonitorError>(MonitorError::TotalsOverflow)
                    && final(self).flow_table() == old(self).flow_table()
            },
    {
        self.report_if_due(now_micros)
    }
}

} // verus!
