use retina::enrich::enrich_flow;
use retina::flow::{Flow, FlowIp, Verdict, TrafficDirection, TraceObservationPoint};
use retina::identity::{Identity, Workload, IDENTITY_WORLD, IDENTITY_KUBE_APISERVER};
use retina::ipcache::IpCache;
use retina::net::{parse_ip, IpAddress};

fn ip(s: &str) -> IpAddress {
    parse_ip(s).unwrap()
}

fn ident(ns: &str, pod: &str, svc: &str, node: &str, labels: Vec<&str>) -> Identity {
    Identity {
        namespace: ns.to_string(),
        pod_name: pod.to_string(),
        service_name: svc.to_string(),
        node_name: node.to_string(),
        labels: labels.into_iter().map(|l| l.to_string()).collect(),
        workloads: vec![],
    }
}

fn make_flow(src: &str, dst: &str) -> Flow {
    Flow {
        time_s: 0,
        time_ns: 0,
        verdict: Verdict::Forwarded,
        ip: Some(FlowIp { source: ip(src), destination: ip(dst) }),
        l4: None,
        source: None,
        destination: None,
        source_names: vec![],
        destination_names: vec![],
        traffic_direction: TrafficDirection::Unknown,
        is_reply: None,
        event_type: None,
        trace_observation_point: TraceObservationPoint::Unknown,
        extensions: None,
        summary: String::new(),
        node_name: String::new(),
    }
}

#[test]
fn upsert_and_get() {
    let mut cache = IpCache::new();
    let a = ip("10.0.0.1");
    let mut id = ident("default", "nginx-abc", "", "", vec!["app=nginx"]);
    id.workloads.push(Workload { name: "nginx".to_string(), kind: "Deployment".to_string() });
    cache.upsert(a, id);
    let got = cache.get(a).unwrap();
    assert_eq!(got.namespace, "default");
    assert_eq!(got.pod_name, "nginx-abc");
    assert_eq!(got.labels.len(), 1);
    assert_eq!(got.labels[0], "app=nginx");
}

#[test]
fn delete_removes_entry() {
    let mut cache = IpCache::new();
    let a = ip("10.0.0.2");
    cache.upsert(a, ident("kube-system", "coredns", "", "", vec![]));
    cache.delete(a);
    assert!(cache.get(a).is_none());
}

#[test]
fn sync_state() {
    let mut cache = IpCache::new();
    assert!(!cache.is_synced());
    cache.mark_synced();
    assert!(cache.is_synced());
    cache.clear();
    assert!(!cache.is_synced());
}

#[test]
fn upsert_replaces_and_len_counts() {
    let mut cache = IpCache::new();
    let a = ip("10.0.0.1");
    cache.upsert(a, ident("ns1", "p1", "", "", vec![]));
    cache.upsert(a, ident("ns2", "p2", "", "", vec![]));
    assert_eq!(cache.len(), 1);
    assert_eq!(cache.get(a).unwrap().namespace, "ns2");
}

#[test]
fn get_pair_single_lookup() {
    let mut cache = IpCache::new();
    let a = ip("10.0.0.1");
    let b = ip("10.0.0.2");
    cache.upsert(a, ident("ns", "one", "", "", vec![]));
    let (ra, rb) = cache.get_pair(a, b);
    assert_eq!(ra.unwrap().pod_name, "one");
    assert!(rb.is_none());
}

#[test]
fn node_peers_deduplicated() {
    let mut cache = IpCache::new();
    cache.upsert(ip("192.168.1.5"), ident("", "", "", "node-a", vec![]));
    cache.upsert(ip("192.168.1.6"), ident("", "", "", "node-a", vec![]));
    cache.upsert(ip("192.168.1.7"), ident("", "", "", "node-b", vec![]));
    cache.upsert(ip("10.0.0.1"), ident("ns", "pod", "", "", vec![]));
    let peers = cache.get_node_peers();
    assert_eq!(peers.len(), 2);
    let names: Vec<String> = peers.iter().map(|p| p.0.clone()).collect();
    assert!(names.contains(&"node-a".to_string()));
    assert!(names.contains(&"node-b".to_string()));
}

#[test]
fn enrich_both_endpoints() {
    let mut cache = IpCache::new();
    let mut client = ident("default", "client-abc", "", "", vec!["app=client"]);
    client.workloads.push(Workload { name: "client".to_string(), kind: "Deployment".to_string() });
    cache.upsert(ip("10.0.0.1"), client);
    cache.upsert(ip("10.0.0.2"), ident("backend", "server-xyz", "", "", vec!["app=server"]));
    cache.mark_synced();

    let mut flow = make_flow("10.0.0.1", "10.0.0.2");
    enrich_flow(&mut flow, &cache);

    let src = flow.source.unwrap();
    assert_eq!(src.namespace, "default");
    assert_eq!(src.pod_name, "client-abc");
    assert_eq!(src.labels, vec!["app=client".to_string()]);
    assert_eq!(src.workloads.len(), 1);
    assert_eq!(src.workloads[0].name, "client");
    assert!(src.identity >= 256 && src.identity <= 65535);

    let dst = flow.destination.unwrap();
    assert_eq!(dst.namespace, "backend");
    assert_eq!(dst.pod_name, "server-xyz");
    assert!(dst.identity >= 256 && dst.identity <= 65535);

    assert_eq!(flow.source_names, vec!["default/client-abc".to_string()]);
    assert_eq!(flow.destination_names, vec!["backend/server-xyz".to_string()]);
}

#[test]
fn skip_enrichment_when_not_synced() {
    let mut cache = IpCache::new();
    cache.upsert(ip("10.0.0.1"), ident("default", "pod", "", "", vec![]));
    // mark_synced is never called.
    let mut flow = make_flow("10.0.0.1", "10.0.0.2");
    enrich_flow(&mut flow, &cache);
    assert!(flow.source.is_none());
    assert!(flow.destination.is_none());
}

#[test]
fn kubernetes_service_gets_apiserver_identity() {
    let mut cache = IpCache::new();
    cache.upsert(ip("10.96.0.1"), ident("default", "", "kubernetes", "", vec![]));
    cache.mark_synced();

    let mut flow = make_flow("10.96.0.1", "10.0.0.2");
    enrich_flow(&mut flow, &cache);

    let src = flow.source.unwrap();
    assert_eq!(src.identity, IDENTITY_KUBE_APISERVER);
    assert!(src.labels.contains(&"reserved:kube-apiserver".to_string()));
    assert!(src.labels.contains(&"k8s:io.kubernetes.svc.name=kubernetes".to_string()));
}

#[test]
fn non_apiserver_service_gets_hashed_identity() {
    let mut cache = IpCache::new();
    cache.upsert(ip("10.96.0.10"), ident("backend", "", "redis", "", vec![]));
    cache.mark_synced();

    let mut flow = make_flow("10.96.0.10", "10.0.0.2");
    enrich_flow(&mut flow, &cache);

    let src = flow.source.unwrap();
    assert!(src.identity >= 256 && src.identity <= 65535);
    assert!(!src.labels.iter().any(|l| l.starts_with("reserved:")));
    assert!(src.labels.contains(&"k8s:io.kubernetes.svc.name=redis".to_string()));
}

#[test]
fn node_ip_uses_node_name_as_pod_name() {
    let mut cache = IpCache::new();
    cache.upsert(ip("192.168.1.10"), ident("", "", "", "node-1", vec![]));
    cache.mark_synced();

    let mut flow = make_flow("192.168.1.10", "10.0.0.1");
    enrich_flow(&mut flow, &cache);

    let src = flow.source.unwrap();
    assert_eq!(src.pod_name, "node-1");
}

#[test]
fn unknown_ip_gets_world_identity() {
    let mut cache = IpCache::new();
    cache.mark_synced();

    let mut flow = make_flow("10.0.0.99", "10.0.0.100");
    enrich_flow(&mut flow, &cache);

    let src = flow.source.unwrap();
    assert_eq!(src.identity, IDENTITY_WORLD);
    assert!(src.labels.contains(&"reserved:world".to_string()));

    let dst = flow.destination.unwrap();
    assert_eq!(dst.identity, IDENTITY_WORLD);
}

#[test]
fn pod_endpoint_gets_numeric_identity() {
    let mut cache = IpCache::new();
    cache.upsert(
        ip("10.0.0.1"),
        ident("default", "nginx-abc", "", "", vec!["app=nginx", "tier=frontend"]),
    );
    cache.mark_synced();

    let mut flow = make_flow("10.0.0.1", "10.0.0.2");
    enrich_flow(&mut flow, &cache);

    let src = flow.source.unwrap();
    assert!(src.identity >= 256 && src.identity <= 65535);
}

#[test]
fn local_node_marked_host_remote_node_marked_remote() {
    // The host and remote-node distinction lives in the labels; the
    // numeric identity stays each node's own label hash.
    let mut cache = IpCache::new();
    cache.set_local_node_name("my-node".to_string());
    cache.upsert(ip("192.168.1.5"), ident("", "", "", "my-node", vec![]));
    cache.upsert(ip("192.168.1.10"), ident("", "", "", "node-1", vec![]));
    cache.mark_synced();

    let mut local = make_flow("192.168.1.5", "10.0.0.1");
    enrich_flow(&mut local, &cache);
    let src = local.source.unwrap();
    assert!(src.labels.contains(&"reserved:host".to_string()));
    assert!(src.identity >= 256 && src.identity <= 65535);

    let mut remote = make_flow("192.168.1.10", "10.0.0.1");
    enrich_flow(&mut remote, &cache);
    let src = remote.source.unwrap();
    assert!(src.labels.contains(&"reserved:remote-node".to_string()));
    assert!(src.identity >= 256 && src.identity <= 65535);
}
