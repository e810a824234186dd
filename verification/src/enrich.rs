//! Flow enrichment: resolve both addresses of a flow against the IP cache
//! in one lookup and populate the endpoints with numeric identity, labels
//! and display names. Unknown addresses become the reserved world endpoint;
//! an unsynced cache leaves the flow untouched.

use vstd::prelude::*;

verus! {

use crate::flow::{Flow, FlowView, Endpoint, EndpointView};
use crate::identity::{Identity, IdentityView, clone_labels, clone_workloads,
    reserved_label_for, spec_reserved_label_for, identity_names, spec_names_of, string_lit,
    IDENTITY_WORLD};
use crate::ipcache::{IpCache, spec_resolved_identity};
use vstd::string::StrSliceExecFns;
use vstd::string::StringExecFns;

/// The labels of an enriched endpoint: the identity's own labels, the
/// synthetic service label, the reserved label of the resolved numeric
/// identity, and the host or remote-node mark for node identities.
pub open spec fn spec_enriched_labels(id: IdentityView, local: Seq<char>) -> Seq<Seq<char>> {
    let rid = spec_resolved_identity(id);
    id.labels + (if id.service_name.len() > 0 {
        seq!["k8s:io.kubernetes.svc.name="@ + id.service_name]
    } else {
        Seq::empty()
    }) + (match spec_reserved_label_for(rid) {
        Some(l) => seq![l],
        None => Seq::<Seq<char>>::empty(),
    }) + (if id.node_name.len() > 0 {
        seq![
            if id.node_name == local {
                "reserved:host"@
            } else {
                "reserved:remote-node"@
            },
        ]
    } else {
        Seq::empty()
    })
}

/// The endpoint an identity enriches to.
pub open spec fn spec_enriched_endpoint(id: IdentityView, local: Seq<char>) -> EndpointView {
    EndpointView {
        identity: spec_resolved_identity(id),
        namespace: id.namespace,
        pod_name: if id.pod_name.len() > 0 {
            id.pod_name
        } else if id.node_name.len() > 0 {
            id.node_name
        } else {
            Seq::empty()
        },
        labels: spec_enriched_labels(id, local),
        workloads: id.workloads,
    }
}

/// The reserved world endpoint given to unknown addresses.
pub open spec fn spec_world_endpoint() -> EndpointView {
    EndpointView {
        identity: IDENTITY_WORLD,
        namespace: Seq::empty(),
        pod_name: Seq::empty(),
        labels: seq!["reserved:world"@],
        workloads: Seq::empty(),
    }
}

/// Build the world endpoint.
pub fn world_endpoint() -> (r: Endpoint)
    ensures
        r@ == spec_world_endpoint(),
{
    let mut labels: Vec<String> = Vec::new();
    labels.push(string_lit("reserved:world"));
    let r = Endpoint {
        identity: IDENTITY_WORLD,
        namespace: String::new(),
        pod_name: String::new(),
        labels,
        workloads: Vec::new(),
    };
    proof {
        assert(r@.labels =~= seq!["reserved:world"@]);
        assert(r@.workloads =~= Seq::<crate::identity::WorkloadView>::empty());
    }
    r
}

/// Build the endpoint of a resolved identity.
pub fn identity_to_endpoint_with_local(id: &Identity, cache: &IpCache, local_node_name: &str) -> (r:
    Endpoint)
    ensures
        r@ == spec_enriched_endpoint(id@, local_node_name@),
{
    let numeric_id = cache.resolve_identity_with_local(id, local_node_name);

    let mut labels = clone_labels(&id.labels);
    let ghost own = labels.deep_view();

    let ghost with_svc = own + (if id@.service_name.len() > 0 {
        seq!["k8s:io.kubernetes.svc.name="@ + id@.service_name]
    } else {
        Seq::<Seq<char>>::empty()
    });
    if id.service_name.as_str().unicode_len() > 0 {
        let mut synthetic = String::new();
        synthetic.append("k8s:io.kubernetes.svc.name=");
        synthetic.append(id.service_name.as_str());
        labels.push(synthetic);
    }
    proof {
        assert(labels.deep_view() =~= with_svc);
    }

    let ghost with_reserved = with_svc + (match spec_reserved_label_for(
        spec_resolved_identity(id@),
    ) {
        Some(l) => seq![l],
        None => Seq::<Seq<char>>::empty(),
    });
    match reserved_label_for(numeric_id) {
        Some(l) => {
            labels.push(l);
        },
        None => {
        },
    }
    proof {
        assert(labels.deep_view() =~= with_reserved);
    }

    let ghost with_node = with_reserved + (if id@.node_name.len() > 0 {
        seq![
            if id@.node_name == local_node_name@ {
                "reserved:host"@
            } else {
                "reserved:remote-node"@
            },
        ]
    } else {
        Seq::<Seq<char>>::empty()
    });
    if id.node_name.as_str().unicode_len() > 0 {
        if crate::text::str_eq(id.node_name.as_str(), local_node_name) {
            labels.push(string_lit("reserved:host"));
        } else {
            labels.push(string_lit("reserved:remote-node"));
        }
    }
    proof {
        assert(labels.deep_view() =~= with_node);
    }

    let pod_name = if id.pod_name.as_str().unicode_len() > 0 {
        id.pod_name.clone()
    } else if id.node_name.as_str().unicode_len() > 0 {
        id.node_name.clone()
    } else {
        String::new()
    };

    let r = Endpoint {
        identity: numeric_id,
        namespace: id.namespace.clone(),
        pod_name,
        labels,
        workloads: clone_workloads(&id.workloads),
    };
    proof {
        assert(Seq::new(r.workloads@.len(), |i: int| r.workloads@[i]@) =~= Seq::new(
            id.workloads@.len(),
            |i: int| id.workloads@[i]@,
        ));
        assert(r@.labels == spec_enriched_labels(id@, local_node_name@));
    }
    r
}

/// Enrich a flow's endpoints from the IP cache. An unsynced cache or a
/// flow without an IP header is left untouched; otherwise each side gets
/// its identity's endpoint, or the world endpoint when the address is
/// unknown (whose display names are left as they were).
pub fn enrich_flow(flow: &mut Flow, cache: &IpCache)
    requires
        cache.wf(),
    ensures
        ({
            if !cache.spec_synced() || old(flow)@.ip is None {
                final(flow)@ == old(flow)@
            } else {
                let src = old(flow)@.ip->Some_0.source;
                let dst = old(flow)@.ip->Some_0.destination;
                let local = cache.spec_local_node_name();
                final(flow)@ == (FlowView {
                    source: Some(
                        if cache.spec_contains(src) {
                            spec_enriched_endpoint(cache.spec_at(src), local)
                        } else {
                            spec_world_endpoint()
                        },
                    ),
                    destination: Some(
                        if cache.spec_contains(dst) {
                            spec_enriched_endpoint(cache.spec_at(dst), local)
                        } else {
                            spec_world_endpoint()
                        },
                    ),
                    source_names: if cache.spec_contains(src) {
                        spec_names_of(cache.spec_at(src))
                    } else {
                        old(flow)@.source_names
                    },
                    destination_names: if cache.spec_contains(dst) {
                        spec_names_of(cache.spec_at(dst))
                    } else {
                        old(flow)@.destination_names
                    },
                    ..old(flow)@
                })
            }
        }),
{
    if !cache.is_synced() {
        return ;
    }
    let (src_ip, dst_ip) = match &flow.ip {
        Some(ip) => (ip.source, ip.destination),
        None => {
            return ;
        },
    };

    let (src_id, dst_id) = cache.get_pair(src_ip, dst_ip);
    let local_name = cache.local_node_name();

    match &src_id {
        Some(id) => {
            flow.source_names = identity_names(id);
            flow.source = Some(identity_to_endpoint_with_local(id, cache, local_name.as_str()));
        },
        None => {
            flow.source = Some(world_endpoint());
        },
    }

    match &dst_id {
        Some(id) => {
            flow.destination_names = identity_names(id);
            flow.destination = Some(
                identity_to_endpoint_with_local(id, cache, local_name.as_str()),
            );
        },
        None => {
            flow.destination = Some(world_endpoint());
        },
    }
}

} // verus!
