//! Labelled metrics: the label sets of forwarded and dropped traffic,
//! their TTL bookkeeping, the per-CPU drop-counter aggregation, and the
//! agent's health state.

use vstd::prelude::*;

verus! {

use crate::conntrack::{DIR_INGRESS, DIR_EGRESS, sat_add_u64, sat_add64};
use crate::dropflow::{DropMetricsKey, DropMetricsValue, DropReason, ReasonTable,
    spec_reason_of, spec_reason_name, spec_i64_str, i64_to_dec};
use crate::flow::{Flow, TrafficDirection, Endpoint};
use crate::net::IpAddress;
use crate::text::{string_eq};
use vstd::string::StrSliceExecFns;
use vstd::string::StringExecFns;

/// Direction label of a flow.
#[derive(Clone, Copy, PartialEq, Eq, Structural, Debug)]
pub enum Direction {
    Ingress,
    Egress,
    Unknown,
}

impl Direction {
    /// The label text of this direction.
    pub fn encode(self) -> (r: &'static str)
        ensures
            r@ == spec_direction_text(self),
    {
        match self {
            Direction::Ingress => "INGRESS",
            Direction::Egress => "EGRESS",
            Direction::Unknown => "TRAFFIC_DIRECTION_UNKNOWN",
        }
    }
}

/// The label text of a direction.
pub open spec fn spec_direction_text(d: Direction) -> Seq<char> {
    match d {
        Direction::Ingress => "INGRESS"@,
        Direction::Egress => "EGRESS"@,
        Direction::Unknown => "TRAFFIC_DIRECTION_UNKNOWN"@,
    }
}

/// The direction label of a flow direction.
pub open spec fn spec_direction_of(t: TrafficDirection) -> Direction {
    match t {
        TrafficDirection::Ingress => Direction::Ingress,
        TrafficDirection::Egress => Direction::Egress,
        TrafficDirection::Unknown => Direction::Unknown,
    }
}

/// The direction label of a kernel direction code.
pub open spec fn spec_kernel_direction_text(code: u8) -> Seq<char> {
    if code == DIR_INGRESS {
        "INGRESS"@
    } else if code == DIR_EGRESS {
        "EGRESS"@
    } else {
        "TRAFFIC_DIRECTION_UNKNOWN"@
    }
}

/// Render the direction label of a kernel direction code.
pub fn direction_label(code: u8) -> (r: &'static str)
    ensures
        r@ == spec_kernel_direction_text(code),
{
    if code == DIR_INGRESS {
        "INGRESS"
    } else if code == DIR_EGRESS {
        "EGRESS"
    } else {
        "TRAFFIC_DIRECTION_UNKNOWN"
    }
}

/// The label set of forwarded traffic.
#[derive(Debug)]
pub struct ForwardLabels {
    pub direction: Direction,
    pub source_ip: Option<IpAddress>,
    pub source_namespace: String,
    pub source_podname: String,
    pub source_workload_kind: String,
    pub source_workload_name: String,
    pub destination_ip: Option<IpAddress>,
    pub destination_namespace: String,
    pub destination_podname: String,
    pub destination_workload_kind: String,
    pub destination_workload_name: String,
}

/// The mathematical value of a forward label set.
pub ghost struct ForwardLabelsView {
    pub direction: Direction,
    pub source_ip: Option<IpAddress>,
    pub source_namespace: Seq<char>,
    pub source_podname: Seq<char>,
    pub source_workload_kind: Seq<char>,
    pub source_workload_name: Seq<char>,
    pub destination_ip: Option<IpAddress>,
    pub destination_namespace: Seq<char>,
    pub destination_podname: Seq<char>,
    pub destination_workload_kind: Seq<char>,
    pub destination_workload_name: Seq<char>,
}

impl View for ForwardLabels {
    type V = ForwardLabelsView;

    open spec fn view(&self) -> ForwardLabelsView {
        ForwardLabelsView {
            direction: self.direction,
            source_ip: self.source_ip,
            source_namespace: self.source_namespace@,
            source_podname: self.source_podname@,
            source_workload_kind: self.source_workload_kind@,
            source_workload_name: self.source_workload_name@,
            destination_ip: self.destination_ip,
            destination_namespace: self.destination_namespace@,
            destination_podname: self.destination_podname@,
            destination_workload_kind: self.destination_workload_kind@,
            destination_workload_name: self.destination_workload_name@,
        }
    }
}

impl Clone for ForwardLabels {
    fn clone(&self) -> (r: Self)
        ensures
            r@ == self@,
    {
        ForwardLabels {
            direction: self.direction,
            source_ip: self.source_ip,
            source_namespace: self.source_namespace.clone(),
            source_podname: self.source_podname.clone(),
            source_workload_kind: self.source_workload_kind.clone(),
            source_workload_name: self.source_workload_name.clone(),
            destination_ip: self.destination_ip,
            destination_namespace: self.destination_namespace.clone(),
            destination_podname: self.destination_podname.clone(),
            destination_workload_kind: self.destination_workload_kind.clone(),
            destination_workload_name: self.destination_workload_name.clone(),
        }
    }
}

/// Decide value equality of two forward label sets.
pub fn forward_labels_equal(a: &ForwardLabels, b: &ForwardLabels) -> (r: bool)
    ensures
        r == (a@ == b@),
{
    a.direction == b.direction && a.source_ip == b.source_ip && a.destination_ip
        == b.destination_ip && string_eq(&a.source_namespace, &b.source_namespace) && string_eq(
        &a.source_podname,
        &b.source_podname,
    ) && string_eq(&a.source_workload_kind, &b.source_workload_kind) && string_eq(
        &a.source_workload_name,
        &b.source_workload_name,
    ) && string_eq(&a.destination_namespace, &b.destination_namespace) && string_eq(
        &a.destination_podname,
        &b.destination_podname,
    ) && string_eq(&a.destination_workload_kind, &b.destination_workload_kind) && string_eq(
        &a.destination_workload_name,
        &b.destination_workload_name,
    )
}

/// The namespace, pod name and first workload of an endpoint, as label
/// values.
pub open spec fn spec_endpoint_fields(ep: Option<crate::flow::EndpointView>) -> (Seq<char>, Seq<
    char,
>, Seq<char>, Seq<char>) {
    match ep {
        Some(e) => (
            e.namespace,
            e.pod_name,
            if e.workloads.len() > 0 {
                e.workloads[0].kind
            } else {
                Seq::empty()
            },
            if e.workloads.len() > 0 {
                e.workloads[0].name
            } else {
                Seq::empty()
            },
        ),
        None => (Seq::empty(), Seq::empty(), Seq::empty(), Seq::empty()),
    }
}

/// Extract the namespace, pod name and first workload of an endpoint.
pub fn endpoint_fields(ep: &Option<Endpoint>) -> (r: (String, String, String, String))
    ensures
        ({
            let w = match ep {
                Some(e) => Some(e@),
                None => None,
            };
            (r.0@, r.1@, r.2@, r.3@) == spec_endpoint_fields(w)
        }),
{
    match ep {
        Some(e) => {
            let (wl_kind, wl_name) = if e.workloads.len() > 0 {
                (e.workloads[0].kind.clone(), e.workloads[0].name.clone())
            } else {
                (String::new(), String::new())
            };
            (e.namespace.clone(), e.pod_name.clone(), wl_kind, wl_name)
        },
        None => (String::new(), String::new(), String::new(), String::new()),
    }
}

impl ForwardLabels {
    /// Build the forward labels of an enriched flow.
    pub fn from_flow(f: &Flow) -> (r: Self)
        ensures
            r@.direction == spec_direction_of(f@.traffic_direction),
            r@.source_ip == (match f@.ip {
                Some(ip) => Some(ip.source),
                None => None,
            }),
            r@.destination_ip == (match f@.ip {
                Some(ip) => Some(ip.destination),
                None => None,
            }),
            (r@.source_namespace, r@.source_podname, r@.source_workload_kind,
            r@.source_workload_name) == spec_endpoint_fields(f@.source),
            (r@.destination_namespace, r@.destination_podname, r@.destination_workload_kind,
            r@.destination_workload_name) == spec_endpoint_fields(f@.destination),
    {
        let direction = match f.traffic_direction {
            TrafficDirection::Ingress => Direction::Ingress,
            TrafficDirection::Egress => Direction::Egress,
            TrafficDirection::Unknown => Direction::Unknown,
        };
        let (source_ip, destination_ip) = match &f.ip {
            Some(ip) => (Some(ip.source), Some(ip.destination)),
            None => (None, None),
        };
        let (sns, spod, skind, sname) = endpoint_fields(&f.source);
        let (dns, dpod, dkind, dname) = endpoint_fields(&f.destination);
        ForwardLabels {
            direction,
            source_ip,
            source_namespace: sns,
            source_podname: spod,
            source_workload_kind: skind,
            source_workload_name: sname,
            destination_ip,
            destination_namespace: dns,
            destination_podname: dpod,
            destination_workload_kind: dkind,
            destination_workload_name: dname,
        }
    }
}

/// The label set of dropped traffic aggregated from the kernel counters.
#[derive(Debug)]
pub struct DropLabels {
    pub reason: String,
    pub direction: String,
}

impl Clone for DropLabels {
    fn clone(&self) -> (r: Self)
        ensures
            r@.0 == self@.0 && r@.1 == self@.1,
    {
        DropLabels { reason: self.reason.clone(), direction: self.direction.clone() }
    }
}

impl View for DropLabels {
    type V = (Seq<char>, Seq<char>);

    open spec fn view(&self) -> (Seq<char>, Seq<char>) {
        (self.reason@, self.direction@)
    }
}

/// The label set of lost-event counters.
#[derive(Debug)]
pub struct LostEventLabels {
    pub kind: String,
    pub reason: String,
}

/// The label set of per-flow drop counters: the drop reason with the full
/// forward label set.
#[derive(Debug)]
pub struct DropFlowLabels {
    pub reason: String,
    pub labels: ForwardLabels,
}

/// The mathematical value of a drop-flow label set.
pub ghost struct DropFlowLabelsView {
    pub reason: Seq<char>,
    pub labels: ForwardLabelsView,
}

impl View for DropFlowLabels {
    type V = DropFlowLabelsView;

    open spec fn view(&self) -> DropFlowLabelsView {
        DropFlowLabelsView { reason: self.reason@, labels: self.labels@ }
    }
}

impl Clone for DropFlowLabels {
    fn clone(&self) -> (r: Self)
        ensures
            r@ == self@,
    {
        DropFlowLabels { reason: self.reason.clone(), labels: self.labels.clone() }
    }
}

/// Decide value equality of two drop-flow label sets.
pub fn drop_flow_labels_equal(a: &DropFlowLabels, b: &DropFlowLabels) -> (r: bool)
    ensures
        r == (a@ == b@),
{
    string_eq(&a.reason, &b.reason) && forward_labels_equal(&a.labels, &b.labels)
}

// ── TTL bookkeeping ──────────────────────────────────────────────────

/// The last-seen table behind metric TTL eviction: one timestamp per
/// drop-flow label set (forward label sets use an empty reason).
pub struct TtlTable {
    entries: Vec<(DropFlowLabels, u64)>,
}

/// An entry is fresh at `now` under `ttl`.
pub open spec fn ttl_keeps(last_seen: u64, ttl: u64, now: u64) -> bool {
    now <= last_seen + ttl
}

impl TtlTable {
    pub closed spec fn spec_entries(&self) -> Seq<(DropFlowLabels, u64)> {
        self.entries@
    }

    pub open spec fn wf(&self) -> bool {
        forall|i: int, j: int|
            0 <= i < j < self.spec_entries().len() ==> (#[trigger] self.spec_entries()[i]).0@ != (
            #[trigger] self.spec_entries()[j]).0@
    }

    pub open spec fn spec_has(&self, key: DropFlowLabelsView) -> bool {
        exists|i: int|
            0 <= i < self.spec_entries().len() && (#[trigger] self.spec_entries()[i]).0@ == key
    }

    /// An empty table.
    pub fn new() -> (r: Self)
        ensures
            r.wf(),
            r.spec_entries().len() == 0,
    {
        TtlTable { entries: Vec::new() }
    }

    /// Number of tracked label sets.
    pub fn len(&self) -> (r: usize)
        ensures
            r == self.spec_entries().len(),
    {
        self.entries.len()
    }

    /// Record that a label set was just observed: its timestamp becomes
    /// `now` (appended when the set is new), and every other entry keeps
    /// its label set and timestamp exactly.
    pub fn touch(&mut self, key: DropFlowLabels, now: u64)
        requires
            old(self).wf(),
        ensures
            final(self).wf(),
            final(self).spec_has(key@),
            forall|other: DropFlowLabelsView|
                other != key@ ==> final(self).spec_has(other) == old(self).spec_has(other),
            ({
                let pre = old(self).spec_entries();
                let post = final(self).spec_entries();
                &&& post.len() == (if old(self).spec_has(key@) {
                    pre.len() as int
                } else {
                    pre.len() + 1int
                })
                &&& (forall|i: int|
                    0 <= i < pre.len() ==> (if (#[trigger] pre[i]).0@ == key@ {
                        post[i].0@ == key@ && post[i].1 == now
                    } else {
                        post[i] == pre[i]
                    }))
                &&& (!old(self).spec_has(key@) ==> post[pre.len() as int].0@ == key@
                    && post[pre.len() as int].1 == now)
            }),
    {
        let ghost pre = self.entries@;
        let ghost keyv = key@;
        proof {
            assert forall|a: int, b: int| 0 <= a < b < pre.len() implies (#[trigger] pre[a]).0@
                != (#[trigger] pre[b]).0@ by {
                assert(old(self).spec_entries()[a] == pre[a]);
                assert(old(self).spec_entries()[b] == pre[b]);
            }
        }
        let mut i: usize = 0;
        while i < self.entries.len()
            invariant
                pre == self.entries@,
                pre == old(self).spec_entries(),
                keyv == key@,
                forall|a: int, b: int| 0 <= a < b < pre.len() ==> (#[trigger] pre[a]).0@ != (
                #[trigger] pre[b]).0@,
                i <= self.entries@.len(),
                forall|j: int| 0 <= j < i ==> (#[trigger] pre[j]).0@ != keyv,
            decreases self.entries@.len() - i,
        {
            if drop_flow_labels_equal(&self.entries[i].0, &key) {
                proof {
                    assert(pre[i as int].0@ == keyv);
                }
                self.entries.set(i, (key, now));
                proof {
                    let post = self.entries@;
                    assert(pre == old(self).spec_entries());
                    assert(post.len() == pre.len());
                    assert(post[i as int].0@ == keyv);
                    assert(forall|j: int|
                        0 <= j < post.len() && j != i ==> #[trigger] post[j] == pre[j]);
                    assert forall|a: int, b: int| 0 <= a < b < post.len() implies (
                    #[trigger] post[a]).0@ != (#[trigger] post[b]).0@ by {
                        assert(post[a].0@ == pre[a].0@ && post[b].0@ == pre[b].0@);
                    }
                    assert(post == self.spec_entries());
                    assert((self.spec_entries()[i as int]).0@ == keyv);
                    assert(self.spec_has(keyv));
                    assert forall|other: DropFlowLabelsView| other != keyv implies self.spec_has(
                        other,
                    ) == old(self).spec_has(other) by {
                        if self.spec_has(other) {
                            let k = choose|k: int|
                                0 <= k < self.spec_entries().len() && (
                                #[trigger] self.spec_entries()[k]).0@ == other;
                            assert(post[k].0@ == other);
                            assert(k != i);
                            assert(pre[k].0@ == other);
                            assert((old(self).spec_entries()[k]).0@ == other);
                            assert(old(self).spec_has(other));
                        }
                        if old(self).spec_has(other) {
                            let k = choose|k: int|
                                0 <= k < old(self).spec_entries().len() && (
                                #[trigger] old(self).spec_entries()[k]).0@ == other;
                            assert(pre[k].0@ == other);
                            assert(k != i);
                            assert(post[k].0@ == other);
                            assert((self.spec_entries()[k]).0@ == other);
                            assert(self.spec_has(other));
                        }
                    }
                }
                return ;
            }
            i = i + 1;
        }
        self.entries.push((key, now));
        proof {
            let post = self.entries@;
            assert(pre == old(self).spec_entries());
            assert(post.len() == pre.len() + 1);
            assert(post[post.len() - 1].0@ == keyv);
            assert(forall|j: int| 0 <= j < pre.len() ==> #[trigger] post[j] == pre[j]);
            assert forall|a: int, b: int| 0 <= a < b < post.len() implies (#[trigger] post[a]).0@
                != (#[trigger] post[b]).0@ by {
                if b == post.len() - 1 {
                    assert(post[a].0@ == pre[a].0@);
                    assert(pre[a].0@ != keyv);
                } else {
                    assert(post[a].0@ == pre[a].0@ && post[b].0@ == pre[b].0@);
                }
            }
            assert(post == self.spec_entries());
            assert((self.spec_entries()[post.len() - 1]).0@ == keyv);
            assert(self.spec_has(keyv));
            assert forall|other: DropFlowLabelsView| other != keyv implies self.spec_has(other)
                == old(self).spec_has(other) by {
                if self.spec_has(other) {
                    let k = choose|k: int|
                        0 <= k < self.spec_entries().len() && (
                        #[trigger] self.spec_entries()[k]).0@ == other;
                    assert(post[k].0@ == other);
                    assert(k < post.len() - 1);
                    assert(pre[k].0@ == other);
                    assert((old(self).spec_entries()[k]).0@ == other);
                    assert(old(self).spec_has(other));
                }
                if old(self).spec_has(other) {
                    let k = choose|k: int|
                        0 <= k < old(self).spec_entries().len() && (
                        #[trigger] old(self).spec_entries()[k]).0@ == other;
                    assert(pre[k].0@ == other);
                    assert(post[k].0@ == other);
                    assert((self.spec_entries()[k]).0@ == other);
                    assert(self.spec_has(other));
                }
            }
        }
    }

    /// Remove every label set not seen within `ttl` of `now`, returning
    /// the evicted label sets so their metric series can be dropped.
    pub fn sweep(&mut self, ttl: u64, now: u64) -> (removed: Vec<DropFlowLabels>)
        requires
            old(self).wf(),
        ensures
            final(self).wf(),
            final(self).spec_entries() == old(self).spec_entries().filter(
                |e: (DropFlowLabels, u64)| ttl_keeps(e.1, ttl, now),
            ),
            Seq::new(removed@.len(), |i: int| removed@[i]@) == Seq::new(
                old(self).spec_entries().filter(
                    |e: (DropFlowLabels, u64)| !ttl_keeps(e.1, ttl, now),
                ).len(),
                |i: int| old(self).spec_entries().filter(
                    |e: (DropFlowLabels, u64)| !ttl_keeps(e.1, ttl, now),
                )[i].0@,
            ),
    {
        let ghost pre = self.entries@;
        let ghost keep = |e: (DropFlowLabels, u64)| ttl_keeps(e.1, ttl, now);
        let ghost stale = |e: (DropFlowLabels, u64)| !ttl_keeps(e.1, ttl, now);
        proof {
            assert forall|i: int, j: int| 0 <= i < j < pre.len() implies (#[trigger] pre[i]).0@
                != (#[trigger] pre[j]).0@ by {
                assert(old(self).spec_entries()[i] == pre[i]);
                assert(old(self).spec_entries()[j] == pre[j]);
            }
        }
        let mut kept: Vec<(DropFlowLabels, u64)> = Vec::new();
        let mut removed: Vec<DropFlowLabels> = Vec::new();
        let mut rest = Vec::new();
        core::mem::swap(&mut rest, &mut self.entries);
        let n = rest.len();
        let mut consumed: usize = 0;
        proof {
            reveal(Seq::filter);
            assert(pre.take(0) =~= Seq::<(DropFlowLabels, u64)>::empty());
            assert(pre.skip(0) =~= pre);
        }
        while rest.len() > 0
            invariant
                consumed <= n,
                n == pre.len(),
                rest@ == pre.skip(consumed as int),
                kept@ == pre.take(consumed as int).filter(keep),
                removed@.len() == pre.take(consumed as int).filter(stale).len(),
                forall|i: int|
                    0 <= i < removed@.len() ==> (#[trigger] removed@[i])@ == pre.take(
                        consumed as int,
                    ).filter(stale)[i].0@,
                keep == (|e: (DropFlowLabels, u64)| ttl_keeps(e.1, ttl, now)),
                stale == (|e: (DropFlowLabels, u64)| !ttl_keeps(e.1, ttl, now)),
            decreases rest@.len(),
        {
            proof {
                reveal(Seq::filter);
                assert(pre.skip(consumed as int).len() > 0);
                assert(consumed < pre.len());
                assert(pre.skip(consumed as int)[0] == pre[consumed as int]);
                assert(pre.take(consumed as int + 1).drop_last() =~= pre.take(consumed as int));
                assert(pre.take(consumed as int + 1).last() == pre[consumed as int]);
            }
            let e = rest.remove(0);
            proof {
                assert(rest@ =~= pre.skip(consumed as int + 1));
                assert(e == pre[consumed as int]);
            }
            let fresh = now <= crate::conntrack::sat_add64(e.1, ttl);
            proof {
                assert(fresh == ttl_keeps(pre[consumed as int].1, ttl, now)) by {
                    assert(sat_add_u64(e.1, ttl) == if e.1 + ttl > u64::MAX {
                        u64::MAX
                    } else {
                        (e.1 + ttl) as u64
                    });
                }
            }
            if fresh {
                kept.push(e);
                proof {
                    assert(kept@ =~= pre.take(consumed as int + 1).filter(keep));
                    assert(pre.take(consumed as int + 1).filter(stale) == pre.take(
                        consumed as int,
                    ).filter(stale));
                }
            } else {
                let ghost removed0 = removed@;
                removed.push(e.0);
                proof {
                    assert(kept@ =~= pre.take(consumed as int + 1).filter(keep));
                    assert(pre.take(consumed as int + 1).filter(stale) == pre.take(
                        consumed as int,
                    ).filter(stale).push(pre[consumed as int]));
                    assert forall|i: int|
                        0 <= i < removed@.len() implies (#[trigger] removed@[i])@ == pre.take(
                        consumed as int + 1,
                    ).filter(stale)[i].0@ by {
                        if i < removed0.len() {
                            assert(removed@[i] == removed0[i]);
                            assert(pre.take(consumed as int + 1).filter(stale)[i] == pre.take(
                                consumed as int,
                            ).filter(stale)[i]);
                        } else {
                            assert(removed@[i] == e.0);
                        }
                    }
                }
            }
            consumed = consumed + 1;
        }
        proof {
            assert(pre.skip(consumed as int).len() == 0);
            assert(consumed == pre.len());
            assert(pre.take(consumed as int) =~= pre);
        }
        self.entries = kept;
        proof {
            crate::metrics::lemma_filter_keeps_distinct(pre, keep);
            assert(Seq::new(removed@.len(), |i: int| removed@[i]@) =~= Seq::new(
                pre.filter(stale).len(),
                |i: int| pre.filter(stale)[i].0@,
            ));
        }
        removed
    }
}

/// Filtering an entry list keeps its label sets distinct.
pub proof fn lemma_filter_keeps_distinct(
    s: Seq<(DropFlowLabels, u64)>,
    pred: spec_fn((DropFlowLabels, u64)) -> bool,
)
    requires
        forall|i: int, j: int| 0 <= i < j < s.len() ==> (#[trigger] s[i]).0@ != (
        #[trigger] s[j]).0@,
    ensures
        forall|i: int, j: int|
            0 <= i < j < s.filter(pred).len() ==> (#[trigger] s.filter(pred)[i]).0@ != (
            #[trigger] s.filter(pred)[j]).0@,
    decreases s.len(),
{
    reveal(Seq::filter);
    if s.len() > 0 {
        assert(forall|i: int, j: int|
            0 <= i < j < s.drop_last().len() ==> (#[trigger] s.drop_last()[i]).0@ != (
            #[trigger] s.drop_last()[j]).0@);
        lemma_filter_keeps_distinct(s.drop_last(), pred);
        let f = s.filter(pred);
        let fd = s.drop_last().filter(pred);
        if pred(s.last()) {
            assert(f == fd.push(s.last()));
            assert forall|i: int, j: int| 0 <= i < j < f.len() implies (#[trigger] f[i]).0@ != (
            #[trigger] f[j]).0@ by {
                if j < f.len() - 1 {
                    assert(f[i] == fd[i] && f[j] == fd[j]);
                } else {
                    assert(f[i] == fd[i]);
                    assert(f[j] == s.last());
                    assert(fd.to_multiset().count(fd[i]) > 0) by {
                        fd.to_multiset_ensures();
                        assert(fd.contains(fd[i]));
                    }
                    assert(exists|m: int| 0 <= m < s.drop_last().len() && s.drop_last()[m]
                        == fd[i]) by {
                        lemma_filter_element_from(s.drop_last(), pred, i);
                    }
                    let m = choose|m: int|
                        0 <= m < s.drop_last().len() && s.drop_last()[m] == fd[i];
                    assert(s[m] == fd[i]);
                    assert(s[m].0@ != s[s.len() - 1].0@);
                }
            }
        } else {
            assert(f == fd);
        }
    }
}

/// Every element of a filtered list comes from the list.
proof fn lemma_filter_element_from(
    s: Seq<(DropFlowLabels, u64)>,
    pred: spec_fn((DropFlowLabels, u64)) -> bool,
    i: int,
)
    requires
        0 <= i < s.filter(pred).len(),
    ensures
        exists|m: int| 0 <= m < s.len() && s[m] == s.filter(pred)[i],
    decreases s.len(),
{
    reveal(Seq::filter);
    if s.len() > 0 {
        let f = s.filter(pred);
        let fd = s.drop_last().filter(pred);
        if pred(s.last()) {
            if i < f.len() - 1 {
                lemma_filter_element_from(s.drop_last(), pred, i);
                let m = choose|m: int| 0 <= m < s.drop_last().len() && s.drop_last()[m] == fd[i];
                assert(s[m] == f[i]);
            } else {
                assert(s[s.len() - 1] == f[i]);
            }
        } else {
            lemma_filter_element_from(s.drop_last(), pred, i);
            let m = choose|m: int| 0 <= m < s.drop_last().len() && s.drop_last()[m] == fd[i];
            assert(s[m] == f[i]);
        }
    }
}

// ── Agent health state ───────────────────────────────────────────────

/// Shared agent health and readiness state.
#[derive(Clone, Copy, PartialEq, Eq, Structural, Debug)]
pub struct AgentState {
    pub plugin_started: bool,
    pub grpc_bound: bool,
    pub perf_readers_alive: u64,
}

impl AgentState {
    /// Fresh state: nothing started, nothing bound, no readers.
    pub fn new() -> (r: Self)
        ensures
            !r.plugin_started,
            !r.grpc_bound,
            r.perf_readers_alive == 0,
    {
        AgentState { plugin_started: false, grpc_bound: false, perf_readers_alive: 0 }
    }

    pub fn is_plugin_started(&self) -> (r: bool)
        ensures
            r == self.plugin_started,
    {
        self.plugin_started
    }

    pub fn is_grpc_bound(&self) -> (r: bool)
        ensures
            r == self.grpc_bound,
    {
        self.grpc_bound
    }

    pub fn perf_readers_alive(&self) -> (r: u64)
        ensures
            r == self.perf_readers_alive,
    {
        self.perf_readers_alive
    }

    /// One event reader came up.
    pub fn reader_started(&mut self)
        ensures
            final(self).perf_readers_alive == sat_add_u64(old(self).perf_readers_alive, 1),
            final(self).plugin_started == old(self).plugin_started,
            final(self).grpc_bound == old(self).grpc_bound,
    {
        self.perf_readers_alive = sat_add64(self.perf_readers_alive, 1);
    }

    /// One event reader went down, as its scoped guard reports on every
    /// exit path.
    pub fn reader_stopped(&mut self)
        ensures
            final(self).perf_readers_alive == if old(self).perf_readers_alive > 0 {
                (old(self).perf_readers_alive - 1) as u64
            } else {
                0u64
            },
            final(self).plugin_started == old(self).plugin_started,
            final(self).grpc_bound == old(self).grpc_bound,
    {
        if self.perf_readers_alive > 0 {
            self.perf_readers_alive = self.perf_readers_alive - 1;
        }
    }

    /// Liveness: at least one event reader is alive.
    pub fn healthz_ok(&self) -> (r: bool)
        ensures
            r == (self.perf_readers_alive > 0),
    {
        self.perf_readers_alive > 0
    }

    /// Readiness: the plugin started, the stream interface is bound, a
    /// reader is alive, and the cache is synced whenever an operator is
    /// configured.
    pub fn readyz_ok(&self, operator_configured: bool, synced: bool) -> (r: bool)
        ensures
            r == (self.plugin_started && self.grpc_bound && self.perf_readers_alive > 0 && (
            !operator_configured || synced)),
    {
        self.plugin_started && self.grpc_bound && self.perf_readers_alive > 0 && (
        !operator_configured || synced)
    }
}

// ── Aggregation of the per-CPU drop counters ─────────────────────────

/// One aggregated gauge value.
#[derive(Debug)]
pub struct DropAggregate {
    pub reason: String,
    pub direction: String,
    pub count: u64,
    pub bytes: u64,
}

/// The gauge label of one kernel counter key: kernel drops resolve the
/// stored reason code to the kernel's name, the rest use the reason name.
pub open spec fn spec_drop_label(k: DropMetricsKey, t: &ReasonTable) -> (Seq<char>, Seq<char>) {
    let reason = if spec_reason_of(k.drop_reason) == DropReason::KernelDrop {
        if t.spec_contains(k.return_val as u32) {
            t.spec_at(k.return_val as u32)
        } else {
            "KERNEL_DROP_"@ + spec_i64_str(k.return_val as int)
        }
    } else {
        spec_reason_name(spec_reason_of(k.drop_reason))
    };
    (reason, spec_kernel_direction_text(k.direction))
}

/// The total of one key's per-CPU counters, saturating.
pub open spec fn spec_cpu_count(vals: Seq<DropMetricsValue>) -> u64
    decreases vals.len(),
{
    if vals.len() == 0 {
        0
    } else {
        sat_add_u64(spec_cpu_count(vals.drop_last()), vals.last().count)
    }
}

pub open spec fn spec_cpu_bytes(vals: Seq<DropMetricsValue>) -> u64
    decreases vals.len(),
{
    if vals.len() == 0 {
        0
    } else {
        sat_add_u64(spec_cpu_bytes(vals.drop_last()), vals.last().bytes)
    }
}

/// The total count of every entry labelled `lbl`, saturating: because the
/// kernel hooks emit several return codes under one gauge label, entries
/// accumulate instead of overwriting one another.
pub open spec fn spec_label_count(
    entries: Seq<(DropMetricsKey, Vec<DropMetricsValue>)>,
    t: &ReasonTable,
    lbl: (Seq<char>, Seq<char>),
) -> u64
    decreases entries.len(),
{
    if entries.len() == 0 {
        0
    } else {
        let rest = spec_label_count(entries.drop_last(), t, lbl);
        if spec_drop_label(entries.last().0, t) == lbl {
            sat_add_u64(rest, spec_cpu_count(entries.last().1@))
        } else {
            rest
        }
    }
}

pub open spec fn spec_label_bytes(
    entries: Seq<(DropMetricsKey, Vec<DropMetricsValue>)>,
    t: &ReasonTable,
    lbl: (Seq<char>, Seq<char>),
) -> u64
    decreases entries.len(),
{
    if entries.len() == 0 {
        0
    } else {
        let rest = spec_label_bytes(entries.drop_last(), t, lbl);
        if spec_drop_label(entries.last().0, t) == lbl {
            sat_add_u64(rest, spec_cpu_bytes(entries.last().1@))
        } else {
            rest
        }
    }
}

/// Sum one key's per-CPU counters.
fn sum_cpu_values(vals: &Vec<DropMetricsValue>) -> (r: (u64, u64))
    ensures
        r.0 == spec_cpu_count(vals@),
        r.1 == spec_cpu_bytes(vals@),
{
    let mut count: u64 = 0;
    let mut bytes: u64 = 0;
    let mut i: usize = 0;
    proof {
        assert(vals@.take(0) =~= Seq::<DropMetricsValue>::empty());
    }
    while i < vals.len()
        invariant
            i <= vals@.len(),
            count == spec_cpu_count(vals@.take(i as int)),
            bytes == spec_cpu_bytes(vals@.take(i as int)),
        decreases vals@.len() - i,
    {
        proof {
            assert(vals@.take(i as int + 1).drop_last() =~= vals@.take(i as int));
            assert(vals@.take(i as int + 1).last() == vals@[i as int]);
        }
        count = sat_add64(count, vals[i].count);
        bytes = sat_add64(bytes, vals[i].bytes);
        i = i + 1;
    }
    proof {
        assert(vals@.take(vals@.len() as int) =~= vals@);
    }
    (count, bytes)
}

/// Render the gauge label of one kernel counter key.
fn drop_label_of(key: &DropMetricsKey, t: &ReasonTable) -> (r: (String, String))
    requires
        t.wf(),
    ensures
        (r.0@, r.1@) == spec_drop_label(*key, t),
{
    let reason = DropReason::from_u8(key.drop_reason);
    let reason_label: String = if reason == DropReason::KernelDrop {
        match t.get(key.return_val as u32) {
            Some(name) => name,
            None => {
                let mut s = String::new();
                s.append("KERNEL_DROP_");
                let num = i64_to_dec(key.return_val as i64);
                s.append(num.as_str());
                proof {
                    assert(s@ =~= "KERNEL_DROP_"@ + spec_i64_str(key.return_val as int));
                }
                s
            },
        }
    } else {
        crate::identity::string_lit(reason.as_str())
    };
    let direction = crate::identity::string_lit(direction_label(key.direction));
    (reason_label, direction)
}

/// The saturating totals of every entry labelled `lbl`.
fn sums_for_label(
    entries: &Vec<(DropMetricsKey, Vec<DropMetricsValue>)>,
    t: &ReasonTable,
    reason: &String,
    direction: &String,
) -> (r: (u64, u64))
    requires
        t.wf(),
    ensures
        r.0 == spec_label_count(entries@, t, (reason@, direction@)),
        r.1 == spec_label_bytes(entries@, t, (reason@, direction@)),
{
    let ghost lbl = (reason@, direction@);
    let mut count: u64 = 0;
    let mut bytes: u64 = 0;
    let mut i: usize = 0;
    proof {
        assert(entries@.take(0) =~= Seq::<(DropMetricsKey, Vec<DropMetricsValue>)>::empty());
    }
    while i < entries.len()
        invariant
            i <= entries@.len(),
            t.wf(),
            lbl == (reason@, direction@),
            count == spec_label_count(entries@.take(i as int), t, lbl),
            bytes == spec_label_bytes(entries@.take(i as int), t, lbl),
        decreases entries@.len() - i,
    {
        proof {
            assert(entries@.take(i as int + 1).drop_last() =~= entries@.take(i as int));
            assert(entries@.take(i as int + 1).last() == entries@[i as int]);
        }
        let (er, ed) = drop_label_of(&entries[i].0, t);
        if string_eq(&er, reason) && string_eq(&ed, direction) {
            proof {
                assert(spec_drop_label(entries@[i as int].0, t) == lbl);
            }
            let (c, b) = sum_cpu_values(&entries[i].1);
            count = sat_add64(count, c);
            bytes = sat_add64(bytes, b);
        } else {
            proof {
                assert(spec_drop_label(entries@[i as int].0, t) != lbl);
            }
        }
        i = i + 1;
    }
    proof {
        assert(entries@.take(entries@.len() as int) =~= entries@);
    }
    (count, bytes)
}

/// A label appears in the label list.
pub open spec fn label_listed(labels: Seq<(String, String)>, lbl: (Seq<char>, Seq<char>)) -> bool {
    exists|a: int| 0 <= a < labels.len() && ((#[trigger] labels[a]).0@, labels[a].1@) == lbl
}

/// A label appears among the aggregates.
pub open spec fn aggregate_covers(r: Seq<DropAggregate>, lbl: (Seq<char>, Seq<char>)) -> bool {
    exists|i: int| 0 <= i < r.len() && ((#[trigger] r[i]).reason@, r[i].direction@) == lbl
}

/// Aggregate the per-CPU drop counters into one gauge value per label:
/// distinct labels, each carrying the saturating totals of every entry
/// sharing it, so entries under one label accumulate instead of
/// overwriting one another.
pub fn aggregate_drop_metrics(
    entries: &Vec<(DropMetricsKey, Vec<DropMetricsValue>)>,
    t: &ReasonTable,
) -> (r: Vec<DropAggregate>)
    requires
        t.wf(),
    ensures
        forall|i: int, j: int|
            0 <= i < j < r@.len() ==> ((#[trigger] r@[i]).reason@, r@[i].direction@) != ((
            #[trigger] r@[j]).reason@, r@[j].direction@),
        forall|i: int|
            0 <= i < r@.len() ==> (#[trigger] r@[i]).count == spec_label_count(
                entries@,
                t,
                (r@[i].reason@, r@[i].direction@),
            ) && r@[i].bytes == spec_label_bytes(entries@, t, (r@[i].reason@, r@[i].direction@)),
        forall|e: int|
            0 <= e < entries@.len() ==> aggregate_covers(
                r@,
                spec_drop_label((#[trigger] entries@[e]).0, t),
            ),
{
    // First pass: the distinct labels, in first-seen order.
    let mut labels: Vec<(String, String)> = Vec::new();
    let n = entries.len();
    let mut e: usize = 0;
    while e < n
        invariant
            e <= n,
            n == entries@.len(),
            t.wf(),
            forall|a: int, b: int|
                0 <= a < b < labels@.len() ==> ((#[trigger] labels@[a]).0@, labels@[a].1@) != ((
                #[trigger] labels@[b]).0@, labels@[b].1@),
            forall|k: int|
                0 <= k < e ==> label_listed(labels@, spec_drop_label((#[trigger] entries@[k]).0, t)),
        decreases n - e,
    {
        let (reason_label, direction) = drop_label_of(&entries[e].0, t);
        let ghost lbl = (reason_label@, direction@);
        let ghost labels0 = labels@;
        let mut seen = false;
        let mut a: usize = 0;
        let m = labels.len();
        while a < m
            invariant
                a <= m,
                m == labels@.len(),
                lbl == (reason_label@, direction@),
                seen == exists|b: int|
                    0 <= b < a && ((#[trigger] labels@[b]).0@, labels@[b].1@) == lbl,
            decreases m - a,
        {
            if string_eq(&labels[a].0, &reason_label) && string_eq(&labels[a].1, &direction) {
                proof {
                    assert((labels@[a as int].0@, labels@[a as int].1@) == lbl);
                }
                seen = true;
            }
            a = a + 1;
        }
        if !seen {
            labels.push((reason_label, direction));
            proof {
                let post = labels@;
                assert((post[post.len() - 1].0@, post[post.len() - 1].1@) == lbl);
                assert forall|x: int, y: int|
                    0 <= x < y < post.len() implies ((#[trigger] post[x]).0@, post[x].1@) != ((
                #[trigger] post[y]).0@, post[y].1@) by {
                    if y == post.len() - 1 {
                        assert((post[x].0@, post[x].1@) != lbl);
                    }
                }
                assert(label_listed(labels@, lbl)) by {
                    assert((labels@[labels@.len() - 1].0@, labels@[labels@.len() - 1].1@) == lbl);
                }
            }
        } else {
            proof {
                assert(label_listed(labels@, lbl));
            }
        }
        proof {
            assert(label_listed(labels@, spec_drop_label(entries@[e as int].0, t)));
            assert forall|k: int| 0 <= k < e + 1 implies label_listed(
                labels@,
                spec_drop_label((#[trigger] entries@[k]).0, t),
            ) by {
                if k < e {
                    let b0 = choose|b0: int|
                        0 <= b0 < labels0.len() && ((#[trigger] labels0[b0]).0@, labels0[b0].1@)
                            == spec_drop_label(entries@[k].0, t);
                    assert((labels@[b0].0@, labels@[b0].1@) == spec_drop_label(
                        entries@[k].0,
                        t,
                    ));
                }
            }
        }
        e = e + 1;
    }

    let ghost all_labels = labels@;
    proof {
        assert(e == entries@.len());
        assert(forall|k: int|
            0 <= k < entries@.len() ==> label_listed(
                all_labels,
                spec_drop_label((#[trigger] entries@[k]).0, t),
            ));
    }
    // Second pass: one aggregate per label.
    let mut out: Vec<DropAggregate> = Vec::new();
    let mut i: usize = 0;
    let m = labels.len();
    while i < m
        invariant
            i <= m,
            m == labels@.len(),
            labels@ == all_labels,
            t.wf(),
            out@.len() == i,
            forall|a: int, b: int|
                0 <= a < b < labels@.len() ==> ((#[trigger] labels@[a]).0@, labels@[a].1@) != ((
                #[trigger] labels@[b]).0@, labels@[b].1@),
            forall|a: int|
                0 <= a < i ==> ((#[trigger] out@[a]).reason@, out@[a].direction@) == (
                labels@[a].0@, labels@[a].1@),
            forall|a: int|
                0 <= a < i ==> (#[trigger] out@[a]).count == spec_label_count(
                    entries@,
                    t,
                    (out@[a].reason@, out@[a].direction@),
                ) && out@[a].bytes == spec_label_bytes(
                    entries@,
                    t,
                    (out@[a].reason@, out@[a].direction@),
                ),
        decreases m - i,
    {
        let (count, bytes) = sums_for_label(entries, t, &labels[i].0, &labels[i].1);
        out.push(
            DropAggregate {
                reason: labels[i].0.clone(),
                direction: labels[i].1.clone(),
                count,
                bytes,
            },
        );
        i = i + 1;
    }
    proof {
        assert forall|k: int| 0 <= k < entries@.len() implies aggregate_covers(
            out@,
            spec_drop_label((#[trigger] entries@[k]).0, t),
        ) by {
            assert(label_listed(all_labels, spec_drop_label(entries@[k].0, t)));
            let b = choose|b: int|
                0 <= b < all_labels.len() && ((#[trigger] all_labels[b]).0@, all_labels[b].1@)
                    == spec_drop_label(entries@[k].0, t);
            assert(0 <= b < out@.len());
            assert((out@[b].reason@, out@[b].direction@) == spec_drop_label(entries@[k].0, t));
        }
    }
    out
}


} // verus!
