use retina::identity::{Identity, Workload, hash_labels_to_identity, identity_names,
    reserved_label_for, IDENTITY_WORLD, IDENTITY_HOST, IDENTITY_REMOTE_NODE,
    IDENTITY_KUBE_APISERVER, MIN_CLUSTER_IDENTITY, MAX_CLUSTER_IDENTITY};
use retina::ipcache::IpCache;

fn ident(ns: &str, pod: &str, svc: &str, node: &str, labels: Vec<&str>) -> Identity {
    Identity {
        namespace: ns.to_string(),
        pod_name: pod.to_string(),
        service_name: svc.to_string(),
        node_name: node.to_string(),
        labels: labels.into_iter().map(|l| l.to_string()).collect(),
        workloads: vec![],
    }
}

#[test]
fn pod_numeric_identity_in_cluster_range() {
    let id = ident("default", "nginx-abc", "", "", vec!["app=nginx", "tier=frontend"]);
    let num = id.numeric_identity();
    assert!(num >= MIN_CLUSTER_IDENTITY && num <= MAX_CLUSTER_IDENTITY);
}

#[test]
fn same_labels_same_identity() {
    let id1 = ident("default", "nginx-abc", "", "", vec!["app=nginx", "tier=frontend"]);
    // Different pod name and label order.
    let id2 = ident("default", "nginx-xyz", "", "", vec!["tier=frontend", "app=nginx"]);
    assert_eq!(id1.numeric_identity(), id2.numeric_identity());
}

#[test]
fn different_labels_likely_different_identity() {
    let id1 = ident("default", "nginx", "", "", vec!["app=nginx"]);
    let id2 = ident("default", "redis", "", "", vec!["app=redis"]);
    // Not guaranteed, but a collision of the 64-bit hash on these two label
    // sets would be extraordinary.
    assert_ne!(id1.numeric_identity(), id2.numeric_identity());
}

#[test]
fn different_namespace_different_identity() {
    let id1 = ident("default", "nginx", "", "", vec!["app=nginx"]);
    let id2 = ident("production", "nginx", "", "", vec!["app=nginx"]);
    assert_ne!(id1.numeric_identity(), id2.numeric_identity());
}

#[test]
fn irrelevant_labels_ignored() {
    let id1 = ident("default", "nginx-abc", "", "", vec!["app=nginx"]);
    let id2 = ident(
        "default",
        "nginx-xyz",
        "",
        "",
        vec!["app=nginx", "pod-template-hash=abc123", "controller-revision-hash=xyz789"],
    );
    assert_eq!(id1.numeric_identity(), id2.numeric_identity());
}

#[test]
fn more_irrelevant_labels_ignored() {
    let id1 = ident("default", "p", "", "", vec!["app=db"]);
    let id2 = ident(
        "default",
        "p",
        "",
        "",
        vec![
            "app=db",
            "pod-template-generation=3",
            "statefulset.kubernetes.io/pod-name=db-0",
            "batch.kubernetes.io/job-completion-index=1",
        ],
    );
    assert_eq!(id1.numeric_identity(), id2.numeric_identity());
}

#[test]
fn node_identity_is_unique_per_node() {
    let id = ident("", "", "", "node-1", vec![]);
    let num = id.numeric_identity();
    assert!(num >= MIN_CLUSTER_IDENTITY && num <= MAX_CLUSTER_IDENTITY);

    let id2 = ident("", "", "", "node-2", vec![]);
    assert_ne!(id.numeric_identity(), id2.numeric_identity());
}

#[test]
fn service_identity_in_cluster_range() {
    let id = ident("backend", "", "redis", "", vec![]);
    let num = id.numeric_identity();
    assert!(num >= MIN_CLUSTER_IDENTITY && num <= MAX_CLUSTER_IDENTITY);
}

#[test]
fn empty_identity_is_world() {
    let id = ident("", "", "", "", vec![]);
    assert_eq!(id.numeric_identity(), IDENTITY_WORLD);
}

#[test]
fn resolve_kubernetes_service_is_apiserver() {
    let cache = IpCache::new();
    let id = ident("default", "", "kubernetes", "", vec![]);
    assert_eq!(cache.resolve_identity_with_local(&id, ""), IDENTITY_KUBE_APISERVER);
}

#[test]
fn resolve_node_uses_hashed_identity() {
    let cache = IpCache::new();
    let id = ident("", "", "", "my-node", vec![]);
    // The host and remote-node distinction lives in labels, not in the
    // numeric identity: the hash is the same whatever the local node name.
    let expected = id.numeric_identity();
    assert!(expected >= MIN_CLUSTER_IDENTITY && expected <= MAX_CLUSTER_IDENTITY);
    assert_eq!(cache.resolve_identity_with_local(&id, "my-node"), expected);
    assert_eq!(cache.resolve_identity_with_local(&id, "other-node"), expected);
    assert_eq!(cache.resolve_identity_with_local(&id, ""), expected);
}

#[test]
fn hash_function_is_deterministic() {
    let labels = vec!["app=nginx".to_string(), "tier=frontend".to_string()];
    let a = hash_labels_to_identity("default", &labels);
    let b = hash_labels_to_identity("default", &labels);
    assert_eq!(a, b);
    assert!(a >= MIN_CLUSTER_IDENTITY && a <= MAX_CLUSTER_IDENTITY);
}

#[test]
fn identity_names_forms() {
    let pod = ident("default", "client-abc", "", "", vec![]);
    assert_eq!(identity_names(&pod), vec!["default/client-abc".to_string()]);
    let svc = ident("backend", "", "redis", "", vec![]);
    assert_eq!(identity_names(&svc), vec!["backend/redis".to_string()]);
    let node = ident("", "", "", "node-7", vec![]);
    assert_eq!(identity_names(&node), vec!["node-7".to_string()]);
    let empty = ident("", "", "", "", vec![]);
    assert!(identity_names(&empty).is_empty());
}

#[test]
fn reserved_labels() {
    assert_eq!(reserved_label_for(IDENTITY_HOST).unwrap(), "reserved:host");
    assert_eq!(reserved_label_for(IDENTITY_WORLD).unwrap(), "reserved:world");
    assert_eq!(reserved_label_for(IDENTITY_REMOTE_NODE).unwrap(), "reserved:remote-node");
    assert_eq!(reserved_label_for(IDENTITY_KUBE_APISERVER).unwrap(), "reserved:kube-apiserver");
    assert!(reserved_label_for(300).is_none());
}

#[test]
fn workload_fields_survive_clone() {
    let id = Identity {
        namespace: "default".to_string(),
        pod_name: "nginx".to_string(),
        service_name: String::new(),
        node_name: String::new(),
        labels: vec!["app=nginx".to_string()],
        workloads: vec![Workload { name: "nginx".to_string(), kind: "Deployment".to_string() }],
    };
    let copy = id.clone();
    assert_eq!(copy.workloads.len(), 1);
    assert_eq!(copy.workloads[0].name, "nginx");
    assert_eq!(copy.workloads[0].kind, "Deployment");
}
