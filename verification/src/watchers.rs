//! The conversion half of the resource watchers: which addresses and
//! identities a pod, service or node contributes to the operator state,
//! with host-network pods skipped and owner references filtered.

use vstd::prelude::*;

verus! {

use crate::net::{IpAddress, parse_ip, spec_parse_ip};
use crate::operator::{OperatorState, CachedIdentity, CachedIdentityView, CachedWorkload,
    CachedWorkloadView, ResourceKind};
use crate::text::{str_eq, find_char, substring, first_index_of, lemma_first_index_at};
use vstd::string::StrSliceExecFns;
use vstd::string::StringExecFns;

/// The fields of a pod that the watcher reads.
#[derive(Debug)]
pub struct PodFields {
    pub name: String,
    pub namespace: String,
    pub host_network: bool,
    pub pod_ips: Vec<String>,
    pub labels: Vec<(String, String)>,
    pub owner_references: Vec<CachedWorkload>,
}

/// The fields of a service that the watcher reads.
#[derive(Debug)]
pub struct ServiceFields {
    pub name: String,
    pub namespace: String,
    pub cluster_ip: Option<String>,
    pub load_balancer_ips: Vec<String>,
}

/// The fields of a node that the watcher reads.
#[derive(Debug)]
pub struct NodeFields {
    pub name: String,
    pub internal_ips: Vec<String>,
    pub pod_cidrs: Vec<String>,
}

/// `key=value` form of a label pair.
pub open spec fn spec_label_pair(k: Seq<char>, v: Seq<char>) -> Seq<char> {
    k + "="@ + v
}

/// Labels formatted as `key=value`.
pub fn format_labels(labels: &Vec<(String, String)>) -> (r: Vec<String>)
    ensures
        r.deep_view() == Seq::new(
            labels@.len(),
            |i: int| spec_label_pair(labels@[i].0@, labels@[i].1@),
        ),
{
    let mut out: Vec<String> = Vec::new();
    let mut i: usize = 0;
    while i < labels.len()
        invariant
            i <= labels@.len(),
            out@.len() == i,
            forall|j: int|
                0 <= j < i ==> #[trigger] out@[j]@ == spec_label_pair(
                    labels@[j].0@,
                    labels@[j].1@,
                ),
        decreases labels@.len() - i,
    {
        let mut s = String::new();
        s.append(labels[i].0.as_str());
        s.append("=");
        s.append(labels[i].1.as_str());
        out.push(s);
        i = i + 1;
    }
    proof {
        assert(out.deep_view() =~= Seq::new(
            labels@.len(),
            |i: int| spec_label_pair(labels@[i].0@, labels@[i].1@),
        ));
    }
    out
}

/// An owner-reference kind that counts as a workload.
pub open spec fn spec_workload_kind(kind: Seq<char>) -> bool {
    kind == "ReplicaSet"@ || kind == "Deployment"@ || kind == "StatefulSet"@ || kind
        == "DaemonSet"@ || kind == "Job"@
}

/// Decide whether an owner-reference kind counts as a workload.
pub fn is_workload_kind(kind: &str) -> (r: bool)
    ensures
        r == spec_workload_kind(kind@),
{
    str_eq(kind, "ReplicaSet") || str_eq(kind, "Deployment") || str_eq(kind, "StatefulSet")
        || str_eq(kind, "DaemonSet") || str_eq(kind, "Job")
}

/// The owner references whose kind counts as a workload, in order.
pub open spec fn spec_workloads_of(refs: Seq<CachedWorkloadView>) -> Seq<CachedWorkloadView> {
    refs.filter(|w: CachedWorkloadView| spec_workload_kind(w.kind))
}

/// Filter owner references to the workload kinds.
pub fn filter_workloads(refs: &Vec<CachedWorkload>) -> (r: Vec<CachedWorkload>)
    ensures
        Seq::new(r@.len(), |i: int| r@[i]@) == spec_workloads_of(
            Seq::new(refs@.len(), |i: int| refs@[i]@),
        ),
{
    let ghost all = Seq::new(refs@.len(), |i: int| refs@[i]@);
    let mut out: Vec<CachedWorkload> = Vec::new();
    let mut i: usize = 0;
    proof {
        reveal(Seq::filter);
        assert(all.take(0) =~= Seq::<CachedWorkloadView>::empty());
    }
    while i < refs.len()
        invariant
            i <= refs@.len(),
            all == Seq::new(refs@.len(), |i: int| refs@[i]@),
            all.len() == refs@.len(),
            Seq::new(out@.len(), |j: int| out@[j]@) == all.take(i as int).filter(
                |w: CachedWorkloadView| spec_workload_kind(w.kind),
            ),
        decreases refs@.len() - i,
    {
        proof {
            reveal(Seq::filter);
            assert(all.take(i as int + 1).drop_last() =~= all.take(i as int));
            assert(all.take(i as int + 1).last() == all[i as int]);
            assert(all[i as int] == refs@[i as int]@);
        }
        if is_workload_kind(refs[i].kind.as_str()) {
            out.push(refs[i].clone());
            proof {
                assert(Seq::new(out@.len(), |j: int| out@[j]@) =~= all.take(i as int + 1).filter(
                    |w: CachedWorkloadView| spec_workload_kind(w.kind),
                ));
            }
        } else {
            proof {
                assert(Seq::new(out@.len(), |j: int| out@[j]@) =~= all.take(i as int + 1).filter(
                    |w: CachedWorkloadView| spec_workload_kind(w.kind),
                ));
            }
        }
        i = i + 1;
    }
    proof {
        assert(all.take(refs@.len() as int) =~= all);
    }
    out
}

/// One of the listed address texts denotes this address.
pub open spec fn names_addr(ips: Seq<Seq<char>>, a: IpAddress) -> bool {
    exists|i: int| 0 <= i < ips.len() && spec_parse_ip(#[trigger] ips[i]) == Some(a)
}

/// The identity a pod contributes.
pub open spec fn spec_pod_identity(pod: &PodFields) -> CachedIdentityView {
    CachedIdentityView {
        resource_kind: ResourceKind::Pod,
        namespace: pod.namespace@,
        pod_name: pod.name@,
        service_name: Seq::empty(),
        node_name: Seq::empty(),
        labels: Seq::new(pod.labels@.len(), |i: int| spec_label_pair(
            pod.labels@[i].0@,
            pod.labels@[i].1@,
        )),
        workloads: spec_workloads_of(
            Seq::new(pod.owner_references@.len(), |i: int| pod.owner_references@[i]@),
        ),
    }
}

/// Apply one observed pod: host-network pods contribute nothing; otherwise
/// every parseable pod address maps to the pod's identity with formatted
/// labels and filtered workloads.
pub fn handle_pod_apply(pod: &PodFields, state: &mut OperatorState)
    requires
        old(state).wf(),
    ensures
        final(state).wf(),
        pod.host_network ==> *final(state) == *old(state),
        !pod.host_network ==> forall|a: IpAddress|
            names_addr(pod.pod_ips.deep_view(), a) ==> final(state).spec_contains(a)
                && #[trigger] final(state).spec_at(a) == spec_pod_identity(pod),
        forall|a: IpAddress|
            !names_addr(pod.pod_ips.deep_view(), a) ==> final(state).spec_contains(a) == old(
                state,
            ).spec_contains(a),
        forall|a: IpAddress|
            !names_addr(pod.pod_ips.deep_view(), a) && old(state).spec_contains(a)
                ==> #[trigger] final(state).spec_at(a) == old(state).spec_at(a),
    {
    if pod.host_network {
        return ;
    }
    let labels = format_labels(&pod.labels);
    let workloads = filter_workloads(&pod.owner_references);
    let ghost ips = pod.pod_ips.deep_view();
    let mut i: usize = 0;
    while i < pod.pod_ips.len()
        invariant
            state.wf(),
            i <= pod.pod_ips@.len(),
            ips == pod.pod_ips.deep_view(),
            ips.len() == pod.pod_ips@.len(),
            labels.deep_view() == spec_pod_identity(pod).labels,
            Seq::new(workloads@.len(), |j: int| workloads@[j]@) == spec_pod_identity(
                pod,
            ).workloads,
            forall|a: IpAddress|
                (exists|j: int| 0 <= j < i && spec_parse_ip(#[trigger] ips[j]) == Some(a))
                    ==> state.spec_contains(a) && #[trigger] state.spec_at(a)
                    == spec_pod_identity(pod),
            forall|a: IpAddress|
                !names_addr(ips, a) ==> state.spec_contains(a) == old(state).spec_contains(a),
            forall|a: IpAddress|
                !names_addr(ips, a) && old(state).spec_contains(a) ==> #[trigger] state.spec_at(a)
                    == old(state).spec_at(a),
        decreases pod.pod_ips@.len() - i,
    {
        proof {
            assert(ips[i as int] == pod.pod_ips@[i as int]@);
        }
        match parse_ip(pod.pod_ips[i].as_str()) {
            Some(a) => {
                let identity = CachedIdentity {
                    resource_kind: ResourceKind::Pod,
                    namespace: pod.namespace.clone(),
                    pod_name: pod.name.clone(),
                    service_name: String::new(),
                    node_name: String::new(),
                    labels: crate::identity::clone_labels(&labels),
                    workloads: crate::operator::clone_workload_list(&workloads),
                };
                proof {
                    assert(identity@.workloads =~= spec_pod_identity(pod).workloads);
                    assert(identity@ == spec_pod_identity(pod));
                    assert(names_addr(ips, a)) by {
                        assert(spec_parse_ip(ips[i as int]) == Some(a));
                    }
                }
                state.upsert(a, identity);
            },
            None => {
            },
        }
        i = i + 1;
    }
}

/// Remove one observed pod: host-network pods are skipped; any address of
/// the pod still owned by the pod watcher is removed.
pub fn handle_pod_delete(pod: &PodFields, state: &mut OperatorState)
    requires
        old(state).wf(),
    ensures
        final(state).wf(),
        pod.host_network ==> *final(state) == *old(state),
        !pod.host_network ==> forall|a: IpAddress|
            names_addr(pod.pod_ips.deep_view(), a) ==> !(#[trigger] final(state).spec_contains(a)
                && final(state).spec_at(a).resource_kind == ResourceKind::Pod),
        forall|a: IpAddress|
            !names_addr(pod.pod_ips.deep_view(), a) ==> final(state).spec_contains(a) == old(
                state,
            ).spec_contains(a),
        forall|a: IpAddress|
            !names_addr(pod.pod_ips.deep_view(), a) && old(state).spec_contains(a)
                ==> #[trigger] final(state).spec_at(a) == old(state).spec_at(a),
    {
    if pod.host_network {
        return ;
    }
    let ghost ips = pod.pod_ips.deep_view();
    let mut i: usize = 0;
    while i < pod.pod_ips.len()
        invariant
            state.wf(),
            i <= pod.pod_ips@.len(),
            ips == pod.pod_ips.deep_view(),
            ips.len() == pod.pod_ips@.len(),
            forall|a: IpAddress|
                (exists|j: int| 0 <= j < i && spec_parse_ip(#[trigger] ips[j]) == Some(a)) ==> !(
                #[trigger] state.spec_contains(a) && state.spec_at(a).resource_kind
                    == ResourceKind::Pod),
            forall|a: IpAddress|
                !names_addr(ips, a) ==> state.spec_contains(a) == old(state).spec_contains(a),
            forall|a: IpAddress|
                !names_addr(ips, a) && old(state).spec_contains(a) ==> #[trigger] state.spec_at(a)
                    == old(state).spec_at(a),
        decreases pod.pod_ips@.len() - i,
    {
        proof {
            assert(ips[i as int] == pod.pod_ips@[i as int]@);
        }
        match parse_ip(pod.pod_ips[i].as_str()) {
            Some(a) => {
                proof {
                    assert(names_addr(ips, a)) by {
                        assert(spec_parse_ip(ips[i as int]) == Some(a));
                    }
                }
                state.delete(a, ResourceKind::Pod);
            },
            None => {
            },
        }
        i = i + 1;
    }
}

/// The addresses a service contributes: its cluster IP unless it is the
/// literal `None` of a headless service, and every load-balancer ingress
/// address, each when it parses.
pub open spec fn spec_service_addrs(svc: &ServiceFields) -> Seq<IpAddress> {
    (match svc.cluster_ip {
        Some(ref s) => if s@ != "None"@ && spec_parse_ip(s@) is Some {
            seq![spec_parse_ip(s@)->Some_0]
        } else {
            Seq::empty()
        },
        None => Seq::empty(),
    }) + parsed_addrs(svc.load_balancer_ips.deep_view())
}

/// The addresses among a list of texts that parse, in order.
pub open spec fn parsed_addrs(ss: Seq<Seq<char>>) -> Seq<IpAddress>
    decreases ss.len(),
{
    if ss.len() == 0 {
        Seq::empty()
    } else {
        parsed_addrs(ss.drop_last()) + (match spec_parse_ip(ss.last()) {
            Some(a) => seq![a],
            None => Seq::empty(),
        })
    }
}

/// Collect the addresses among a list of texts that parse.
pub fn parse_addr_list(ss: &Vec<String>) -> (r: Vec<IpAddress>)
    ensures
        r@ == parsed_addrs(ss.deep_view()),
{
    let ghost all = ss.deep_view();
    let mut out: Vec<IpAddress> = Vec::new();
    let mut i: usize = 0;
    proof {
        assert(all.take(0) =~= Seq::<Seq<char>>::empty());
    }
    while i < ss.len()
        invariant
            i <= ss@.len(),
            all == ss.deep_view(),
            all.len() == ss@.len(),
            out@ == parsed_addrs(all.take(i as int)),
        decreases ss@.len() - i,
    {
        proof {
            assert(all.take(i as int + 1).drop_last() =~= all.take(i as int));
            assert(all.take(i as int + 1).last() == all[i as int]);
            assert(all[i as int] == ss@[i as int]@);
        }
        match parse_ip(ss[i].as_str()) {
            Some(a) => {
                out.push(a);
                proof {
                    assert(out@ =~= parsed_addrs(all.take(i as int + 1)));
                }
            },
            None => {
                proof {
                    assert(out@ =~= parsed_addrs(all.take(i as int + 1)));
                }
            },
        }
        i = i + 1;
    }
    proof {
        assert(all.take(ss@.len() as int) =~= all);
    }
    out
}

/// Collect the addresses a service contributes.
pub fn service_ips(svc: &ServiceFields) -> (r: Vec<IpAddress>)
    ensures
        r@ == spec_service_addrs(svc),
{
    let mut out: Vec<IpAddress> = Vec::new();
    match &svc.cluster_ip {
        Some(s) => {
            if !str_eq(s.as_str(), "None") {
                match parse_ip(s.as_str()) {
                    Some(a) => {
                        out.push(a);
                    },
                    None => {
                    },
                }
            }
        },
        None => {
        },
    }
    let lbs = parse_addr_list(&svc.load_balancer_ips);
    let ghost head = out@;
    let mut i: usize = 0;
    while i < lbs.len()
        invariant
            i <= lbs@.len(),
            out@ == head + lbs@.take(i as int),
        decreases lbs@.len() - i,
    {
        out.push(lbs[i]);
        proof {
            assert(out@ =~= head + lbs@.take(i as int + 1));
        }
        i = i + 1;
    }
    proof {
        assert(lbs@.take(lbs@.len() as int) =~= lbs@);
        assert(out@ =~= spec_service_addrs(svc));
    }
    out
}

/// The identity a service contributes.
pub open spec fn spec_service_identity(svc: &ServiceFields) -> CachedIdentityView {
    CachedIdentityView {
        resource_kind: ResourceKind::Service,
        namespace: svc.namespace@,
        pod_name: Seq::empty(),
        service_name: svc.name@,
        node_name: Seq::empty(),
        labels: Seq::empty(),
        workloads: Seq::empty(),
    }
}

/// Apply one observed service: each of its addresses maps to the service
/// identity.
pub fn handle_service_apply(svc: &ServiceFields, state: &mut OperatorState)
    requires
        old(state).wf(),
    ensures
        final(state).wf(),
        forall|a: IpAddress|
            spec_service_addrs(svc).contains(a) ==> final(state).spec_contains(a)
                && #[trigger] final(state).spec_at(a) == spec_service_identity(svc),
        forall|a: IpAddress|
            !spec_service_addrs(svc).contains(a) ==> final(state).spec_contains(a) == old(
                state,
            ).spec_contains(a),
        forall|a: IpAddress|
            !spec_service_addrs(svc).contains(a) && old(state).spec_contains(a)
                ==> #[trigger] final(state).spec_at(a) == old(state).spec_at(a),
    {
    let addrs = service_ips(svc);
    let mut i: usize = 0;
    while i < addrs.len()
        invariant
            state.wf(),
            i <= addrs@.len(),
            addrs@ == spec_service_addrs(svc),
            forall|a: IpAddress|
                addrs@.take(i as int).contains(a) ==> state.spec_contains(a)
                    && #[trigger] state.spec_at(a) == spec_service_identity(svc),
            forall|a: IpAddress|
                !addrs@.contains(a) ==> state.spec_contains(a) == old(state).spec_contains(a),
            forall|a: IpAddress|
                !addrs@.contains(a) && old(state).spec_contains(a) ==> #[trigger] state.spec_at(a)
                    == old(state).spec_at(a),
        decreases addrs@.len() - i,
    {
        let identity = CachedIdentity {
            resource_kind: ResourceKind::Service,
            namespace: svc.namespace.clone(),
            pod_name: String::new(),
            service_name: svc.name.clone(),
            node_name: String::new(),
            labels: Vec::new(),
            workloads: Vec::new(),
        };
        proof {
            assert(identity@.labels =~= Seq::<Seq<char>>::empty());
            assert(identity@.workloads =~= Seq::<CachedWorkloadView>::empty());
            assert(identity@ == spec_service_identity(svc));
            assert(addrs@.contains(addrs@[i as int]));
        }
        state.upsert(addrs[i], identity);
        proof {
            assert forall|a: IpAddress| addrs@.take(i as int + 1).contains(a) implies
                state.spec_contains(a) && #[trigger] state.spec_at(a) == spec_service_identity(
                svc,
            ) by {
                let j = choose|j: int| 0 <= j < i + 1 && #[trigger] addrs@.take(i as int + 1)[j] == a;
                if j < i {
                    assert(addrs@.take(i as int)[j] == a);
                    assert(addrs@.take(i as int).contains(a));
                }
            }
        }
        i = i + 1;
    }
    proof {
        assert(addrs@.take(addrs@.len() as int) =~= addrs@);
    }
}

/// Remove one observed service: each of its addresses still owned by the
/// service watcher is removed.
pub fn handle_service_delete(svc: &ServiceFields, state: &mut OperatorState)
    requires
        old(state).wf(),
    ensures
        final(state).wf(),
        forall|a: IpAddress|
            spec_service_addrs(svc).contains(a) ==> !(#[trigger] final(state).spec_contains(a)
                && final(state).spec_at(a).resource_kind == ResourceKind::Service),
        forall|a: IpAddress|
            !spec_service_addrs(svc).contains(a) ==> final(state).spec_contains(a) == old(
                state,
            ).spec_contains(a),
        forall|a: IpAddress|
            !spec_service_addrs(svc).contains(a) && old(state).spec_contains(a)
                ==> #[trigger] final(state).spec_at(a) == old(state).spec_at(a),
    {
    let addrs = service_ips(svc);
    let mut i: usize = 0;
    while i < addrs.len()
        invariant
            state.wf(),
            i <= addrs@.len(),
            addrs@ == spec_service_addrs(svc),
            forall|a: IpAddress|
                addrs@.take(i as int).contains(a) ==> !(#[trigger] state.spec_contains(a)
                    && state.spec_at(a).resource_kind == ResourceKind::Service),
            forall|a: IpAddress|
                !addrs@.contains(a) ==> state.spec_contains(a) == old(state).spec_contains(a),
            forall|a: IpAddress|
                !addrs@.contains(a) && old(state).spec_contains(a) ==> #[trigger] state.spec_at(a)
                    == old(state).spec_at(a),
        decreases addrs@.len() - i,
    {
        proof {
            assert(addrs@.contains(addrs@[i as int]));
        }
        state.delete(addrs[i], ResourceKind::Service);
        proof {
            assert forall|a: IpAddress| addrs@.take(i as int + 1).contains(a) implies !(
            #[trigger] state.spec_contains(a) && state.spec_at(a).resource_kind
                == ResourceKind::Service) by {
                let j = choose|j: int| 0 <= j < i + 1 && #[trigger] addrs@.take(i as int + 1)[j] == a;
                if j < i {
                    assert(addrs@.take(i as int)[j] == a);
                    assert(addrs@.take(i as int).contains(a));
                }
            }
        }
        i = i + 1;
    }
    proof {
        assert(addrs@.take(addrs@.len() as int) =~= addrs@);
    }
}

/// The first usable host address of a pod CIDR: the network address plus
/// one, for either family; an unreadable CIDR or one at the top of the
/// address space yields nothing.
pub open spec fn spec_pod_cidr_gateway(cidr: Seq<char>) -> Option<IpAddress> {
    if exists|i: int| 0 <= i < cidr.len() && cidr[i] == '/' {
        let i = first_index_of(cidr, '/');
        match spec_parse_ip(cidr.subrange(0, i)) {
            Some(IpAddress::V4(v)) => if v < u32::MAX {
                Some(IpAddress::V4((v + 1) as u32))
            } else {
                None
            },
            Some(IpAddress::V6(v)) => if v < u128::MAX {
                Some(IpAddress::V6((v + 1) as u128))
            } else {
                None
            },
            None => None,
        }
    } else {
        None
    }
}

/// Compute the gateway address of a pod CIDR.
pub fn pod_cidr_gateway(cidr: &str) -> (r: Option<IpAddress>)
    ensures
        r == spec_pod_cidr_gateway(cidr@),
{
    let clen = cidr.unicode_len();
    match find_char(cidr, '/') {
        Some(i) => {
            proof {
                lemma_first_index_at(cidr@, '/', i as int);
            }
            let addr_text = substring(cidr, 0, i);
            match parse_ip(addr_text.as_str()) {
                Some(IpAddress::V4(v)) => if v < u32::MAX {
                    Some(IpAddress::V4(v + 1))
                } else {
                    None
                },
                Some(IpAddress::V6(v)) => if v < u128::MAX {
                    Some(IpAddress::V6(v + 1))
                } else {
                    None
                },
                None => None,
            }
        },
        None => {
            proof {
                lemma_first_index_at(cidr@, '/', clen as int);
            }
            None
        },
    }
}

/// The addresses a node contributes: its internal addresses and the
/// gateway of each pod CIDR.
pub open spec fn spec_node_addrs(node: &NodeFields) -> Seq<IpAddress> {
    parsed_addrs(node.internal_ips.deep_view()) + gateway_addrs(node.pod_cidrs.deep_view())
}

/// The gateways among a list of CIDR texts, in order.
pub open spec fn gateway_addrs(ss: Seq<Seq<char>>) -> Seq<IpAddress>
    decreases ss.len(),
{
    if ss.len() == 0 {
        Seq::empty()
    } else {
        gateway_addrs(ss.drop_last()) + (match spec_pod_cidr_gateway(ss.last()) {
            Some(a) => seq![a],
            None => Seq::empty(),
        })
    }
}

/// Collect the addresses a node contributes.
pub fn node_ips(node: &NodeFields) -> (r: Vec<IpAddress>)
    ensures
        r@ == spec_node_addrs(node),
{
    let mut out = parse_addr_list(&node.internal_ips);
    let ghost head = out@;
    let ghost cidrs = node.pod_cidrs.deep_view();
    let mut i: usize = 0;
    proof {
        assert(cidrs.take(0) =~= Seq::<Seq<char>>::empty());
        assert(out@ =~= head + gateway_addrs(cidrs.take(0)));
    }
    while i < node.pod_cidrs.len()
        invariant
            i <= node.pod_cidrs@.len(),
            cidrs == node.pod_cidrs.deep_view(),
            cidrs.len() == node.pod_cidrs@.len(),
            out@ == head + gateway_addrs(cidrs.take(i as int)),
        decreases node.pod_cidrs@.len() - i,
    {
        proof {
            assert(cidrs.take(i as int + 1).drop_last() =~= cidrs.take(i as int));
            assert(cidrs.take(i as int + 1).last() == cidrs[i as int]);
            assert(cidrs[i as int] == node.pod_cidrs@[i as int]@);
        }
        match pod_cidr_gateway(node.pod_cidrs[i].as_str()) {
            Some(a) => {
                out.push(a);
                proof {
                    assert(out@ =~= head + gateway_addrs(cidrs.take(i as int + 1)));
                }
            },
            None => {
                proof {
                    assert(out@ =~= head + gateway_addrs(cidrs.take(i as int + 1)));
                }
            },
        }
        i = i + 1;
    }
    proof {
        assert(cidrs.take(node.pod_cidrs@.len() as int) =~= cidrs);
    }
    out
}

/// The identity a node contributes.
pub open spec fn spec_node_identity(node: &NodeFields) -> CachedIdentityView {
    CachedIdentityView {
        resource_kind: ResourceKind::Node,
        namespace: Seq::empty(),
        pod_name: Seq::empty(),
        service_name: Seq::empty(),
        node_name: node.name@,
        labels: Seq::empty(),
        workloads: Seq::empty(),
    }
}

/// Apply one observed node: each of its addresses maps to the node
/// identity.
pub fn handle_node_apply(node: &NodeFields, state: &mut OperatorState)
    requires
        old(state).wf(),
    ensures
        final(state).wf(),
        forall|a: IpAddress|
            spec_node_addrs(node).contains(a) ==> final(state).spec_contains(a)
                && #[trigger] final(state).spec_at(a) == spec_node_identity(node),
        forall|a: IpAddress|
            !spec_node_addrs(node).contains(a) ==> final(state).spec_contains(a) == old(
                state,
            ).spec_contains(a),
        forall|a: IpAddress|
            !spec_node_addrs(node).contains(a) && old(state).spec_contains(a)
                ==> #[trigger] final(state).spec_at(a) == old(state).spec_at(a),
    {
    let addrs = node_ips(node);
    let mut i: usize = 0;
    while i < addrs.len()
        invariant
            state.wf(),
            i <= addrs@.len(),
            addrs@ == spec_node_addrs(node),
            forall|a: IpAddress|
                addrs@.take(i as int).contains(a) ==> state.spec_contains(a)
                    && #[trigger] state.spec_at(a) == spec_node_identity(node),
            forall|a: IpAddress|
                !addrs@.contains(a) ==> state.spec_contains(a) == old(state).spec_contains(a),
            forall|a: IpAddress|
                !addrs@.contains(a) && old(state).spec_contains(a) ==> #[trigger] state.spec_at(a)
                    == old(state).spec_at(a),
        decreases addrs@.len() - i,
    {
        let identity = CachedIdentity {
            resource_kind: ResourceKind::Node,
            namespace: String::new(),
            pod_name: String::new(),
            service_name: String::new(),
            node_name: node.name.clone(),
            labels: Vec::new(),
            workloads: Vec::new(),
        };
        proof {
            assert(identity@.labels =~= Seq::<Seq<char>>::empty());
            assert(identity@.workloads =~= Seq::<CachedWorkloadView>::empty());
            assert(identity@ == spec_node_identity(node));
            assert(addrs@.contains(addrs@[i as int]));
        }
        state.upsert(addrs[i], identity);
        proof {
            assert forall|a: IpAddress| addrs@.take(i as int + 1).contains(a) implies
                state.spec_contains(a) && #[trigger] state.spec_at(a) == spec_node_identity(
                node,
            ) by {
                let j = choose|j: int| 0 <= j < i + 1 && #[trigger] addrs@.take(i as int + 1)[j] == a;
                if j < i {
                    assert(addrs@.take(i as int)[j] == a);
                    assert(addrs@.take(i as int).contains(a));
                }
            }
        }
        i = i + 1;
    }
    proof {
        assert(addrs@.take(addrs@.len() as int) =~= addrs@);
    }
}

/// Remove one observed node: each of its addresses still owned by the
/// node watcher is removed.
pub fn handle_node_delete(node: &NodeFields, state: &mut OperatorState)
    requires
        old(state).wf(),
    ensures
        final(state).wf(),
        forall|a: IpAddress|
            spec_node_addrs(node).contains(a) ==> !(#[trigger] final(state).spec_contains(a)
                && final(state).spec_at(a).resource_kind == ResourceKind::Node),
        forall|a: IpAddress|
            !spec_node_addrs(node).contains(a) ==> final(state).spec_contains(a) == old(
                state,
            ).spec_contains(a),
        forall|a: IpAddress|
            !spec_node_addrs(node).contains(a) && old(state).spec_contains(a)
                ==> #[trigger] final(state).spec_at(a) == old(state).spec_at(a),
    {
    let addrs = node_ips(node);
    let mut i: usize = 0;
    while i < addrs.len()
        invariant
            state.wf(),
            i <= addrs@.len(),
            addrs@ == spec_node_addrs(node),
            forall|a: IpAddress|
                addrs@.take(i as int).contains(a) ==> !(#[trigger] state.spec_contains(a)
                    && state.spec_at(a).resource_kind == ResourceKind::Node),
            forall|a: IpAddress|
                !addrs@.contains(a) ==> state.spec_contains(a) == old(state).spec_contains(a),
            forall|a: IpAddress|
                !addrs@.contains(a) && old(state).spec_contains(a) ==> #[trigger] state.spec_at(a)
                    == old(state).spec_at(a),
        decreases addrs@.len() - i,
    {
        proof {
            assert(addrs@.contains(addrs@[i as int]));
        }
        state.delete(addrs[i], ResourceKind::Node);
        proof {
            assert forall|a: IpAddress| addrs@.take(i as int + 1).contains(a) implies !(
            #[trigger] state.spec_contains(a) && state.spec_at(a).resource_kind
                == ResourceKind::Node) by {
                let j = choose|j: int| 0 <= j < i + 1 && #[trigger] addrs@.take(i as int + 1)[j] == a;
                if j < i {
                    assert(addrs@.take(i as int)[j] == a);
                    assert(addrs@.take(i as int).contains(a));
                }
            }
        }
        i = i + 1;
    }
    proof {
        assert(addrs@.take(addrs@.len() as int) =~= addrs@);
    }
}

} // verus!
