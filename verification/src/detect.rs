//! Detection engine: rule-based detectors that read the flow table and emit
//! alerts. One module per attack pattern.
use vstd::prelude::*;

use crate::net::IpAddr;

pub mod ml_classifier;
pub mod port_scan;
pub mod syn_flood;

verus! {

/// A detector's finding about one host.
#[derive(Debug, Clone)]
pub struct Alert {
    pub kind: AlertKind,
    /// The victim of a flood, or the scanning host.
    pub target: IpAddr,
    pub detected_at_micros: i64,
    /// Human-readable evidence, e.g. the counts that crossed the threshold.
    pub detail: String,
}

/// The attack patterns the detectors know.
#[derive(Debug, Clone, Copy, PartialEq, Eq, Structural)]
pub enum AlertKind {
    SynFlood,
    PortScan,
    IcmpFlood,
}

/// Thresholds, read from the configuration rather than built in, so that
/// they can be tuned without recompiling.
#[derive(Debug, Clone, Copy)]
pub struct DetectorConfig {
    /// Length of the sliding window, in seconds.
    pub window_secs: u64,
    /// SYNs in excess of ACKs towards one destination that raise a SYN-flood alert.
    pub syn_without_ack_threshold: u64,
    /// Distinct destination ports from one source that raise a port-scan alert.
    pub distinct_ports_threshold: u64,
    /// How often the flow table is reported and checked, in seconds.
    pub dump_interval_secs: u64,
}

/// The decimal digit `d` as a character.
pub open spec fn digit_char(d: nat) -> char {
    (d + 48) as char
}

/// The decimal representation of `n`, without sign or leading zeros.
pub open spec fn decimal(n: nat) -> Seq<char>
    decreases n,
{
    if n < 10 {
        seq![digit_char(n)]
    } else {
        decimal(n / 10).push(digit_char(n % 10))
    }
}

/// The addresses of `ips` in order of first appearance, each once.
pub open spec fn first_seen(ips: Seq<IpAddr>) -> Seq<IpAddr>
    decreases ips.len(),
{
    if ips.len() == 0 {
        ips
    } else if first_seen(ips.drop_last()).contains(ips.last()) {
        first_seen(ips.drop_last())
    } else {
        first_seen(ips.drop_last()).push(ips.last())
    }
}

/// Pushing `x` onto `s` adds exactly `x` to what it contains, and keeps it
/// free of repeats exactly when `s` was and did not hold `x`.
pub proof fn lemma_push_members<A>(s: Seq<A>, x: A)
    ensures
        forall|y: A| #[trigger] s.push(x).contains(y) <==> (s.contains(y) || y == x),
        s.push(x).no_duplicates() <==> s.no_duplicates() && !s.contains(x),
{
    let t = s.push(x);
    assert forall|y: A| #[trigger] t.contains(y) <==> (s.contains(y) || y == x) by {
        if t.contains(y) {
            let w = choose|w: int| 0 <= w < t.len() && t[w] == y;
            if w < s.len() {
                assert(s[w] == y);
            }
        }
        if s.contains(y) {
            let w = choose|w: int| 0 <= w < s.len() && s[w] == y;
            assert(t[w] == y);
        }
        if y == x {
            assert(t[s.len() as int] == y);
        }
    }
    if t.no_duplicates() {
        assert forall|i: int, j: int| 0 <= i < s.len() && 0 <= j < s.len() && i != j implies s[i] != s[j] by {
            assert(t[i] == s[i] && t[j] == s[j]);
        }
        if s.contains(x) {
            let w = choose|w: int| 0 <= w < s.len() && s[w] == x;
            assert(t[w] == t[s.len() as int]);
        }
    }
    if s.no_duplicates() && !s.contains(x) {
        assert forall|i: int, j: int| 0 <= i < t.len() && 0 <= j < t.len() && i != j implies t[i] != t[j] by {
            if i < s.len() && j < s.len() {
                assert(s[i] != s[j]);
            } else if i < s.len() {
                assert(s.contains(s[i]));
            } else if j < s.len() {
                assert(s.contains(s[j]));
            }
        }
    }
}

/// A non-empty sequence is its front with its last element pushed back.
pub proof fn lemma_split_last<A>(s: Seq<A>)
    requires
        s.len() > 0,
    ensures
        s == s.drop_last().push(s.last()),
{
    assert(s =~= s.drop_last().push(s.last()));
}

/// `first_seen` holds exactly the addresses of its argument, each once.
pub proof fn lemma_first_seen(ips: Seq<IpAddr>)
    ensures
        forall|x: IpAddr| #[trigger] first_seen(ips).contains(x) <==> ips.contains(x),
        first_seen(ips).no_duplicates(),
    decreases ips.len(),
{
    if ips.len() > 0 {
        let p = ips.drop_last();
        let l = ips.last();
        let r = first_seen(p);
        lemma_first_seen(p);
        lemma_split_last(ips);
        lemma_push_members(p, l);
        lemma_push_members(r, l);
    }
}

/// Taking one more element of `s` extends its prefix by that element.
pub proof fn lemma_take_next<A>(s: Seq<A>, i: int)
    requires
        0 <= i < s.len(),
    ensures
        s.take(i + 1).drop_last() == s.take(i),
        s.take(i + 1).last() == s[i],
{
    assert(s.take(i + 1).drop_last() =~= s.take(i));
}

} // verus!
