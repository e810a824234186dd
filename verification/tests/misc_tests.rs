use retina::config::{AgentConfig, parse_suppress_config, valid_ring_size};
use retina::dropflow::{DropEvent, DropReason, ReasonTable, errno_name, drop_event_to_flow,
    process_drop_event, first_local_ipv4, pkt_type_to_direction, nf_hook_to_direction,
    PACKET_HOST, PACKET_OUTGOING, NF_INET_LOCAL_IN, NF_INET_LOCAL_OUT, DropMetricsKey,
    DropMetricsValue};
use retina::conntrack::{DIR_INGRESS, DIR_EGRESS, DIR_UNKNOWN};
use retina::flow::{Verdict, Flow, FlowIp, TrafficDirection, TraceObservationPoint};
use retina::identity::Identity;
use retina::ipcache::{IpCache, IpCacheEvent};
use retina::metrics::{AgentState, aggregate_drop_metrics, TtlTable, DropFlowLabels,
    ForwardLabels, Direction, direction_label};
use retina::net::{parse_ipv4, parse_ipv6, parse_ip, parse_ip_matcher, cidr_contains, IpAddress,
    IpMatcher, ip_matches};
use retina::observer::{TimeBound, flow_in_time_range, flow_past_until, select_historical};
use retina::operator::{OperatorState, CachedIdentity, ResourceKind, UpdateType};
use retina::peer::{PeerSet, ChangeKind};
use retina::retry::{AttemptOutcome, next_backoff, classify_outcome, is_transient,
    INITIAL_BACKOFF_SECS, MAX_BACKOFF_SECS};
use retina::sync::{SyncSession, SyncStep, end_of_stream};
use retina::sysinfo::{parse_kb_field, parse_map_region_size, classify_map_line, maps_summary,
    MapRegionClass};
use retina::text::{trim, parse_u64, split_char, str_le};
use retina::vethwatch::{VethTracker, LinkFields};
use retina::watchers::{PodFields, ServiceFields, NodeFields, handle_pod_apply, handle_pod_delete,
    handle_service_apply, handle_node_apply, pod_cidr_gateway, service_ips, node_ips};
use retina::filter::FlowFilterSet;

fn ip(s: &str) -> IpAddress {
    parse_ip(s).unwrap()
}

fn cached(kind: ResourceKind, ns: &str, pod: &str, svc: &str, node: &str) -> CachedIdentity {
    CachedIdentity {
        resource_kind: kind,
        namespace: ns.to_string(),
        pod_name: pod.to_string(),
        service_name: svc.to_string(),
        node_name: node.to_string(),
        labels: vec![],
        workloads: vec![],
    }
}

// ── Addresses ────────────────────────────────────────────────────────

#[test]
fn parse_ipv4_forms() {
    assert_eq!(parse_ipv4("10.0.0.1"), Some(0x0A000001));
    assert_eq!(parse_ipv4("255.255.255.255"), Some(0xFFFFFFFF));
    assert_eq!(parse_ipv4("0.0.0.0"), Some(0));
    assert_eq!(parse_ipv4("256.0.0.1"), None);
    assert_eq!(parse_ipv4("10.0.0"), None);
    assert_eq!(parse_ipv4("10.0.0.1.2"), None);
    assert_eq!(parse_ipv4("10.0.00.1"), None);
    assert_eq!(parse_ipv4(""), None);
    assert_eq!(parse_ipv4("a.b.c.d"), None);
}

#[test]
fn parse_ipv6_embedded_ipv4_tail() {
    assert_eq!(parse_ipv6("::ffff:10.0.0.1"), Some(0x0000_0000_0000_0000_0000_ffff_0a00_0001));
    assert_eq!(parse_ipv6("::1.2.3.4"), Some(0x0102_0304));
    assert_eq!(
        parse_ipv6("0:0:0:0:0:ffff:1.2.3.4"),
        Some(0x0000_0000_0000_0000_0000_ffff_0102_0304)
    );
    assert_eq!(
        parse_ipv6("64:ff9b::192.0.2.33"),
        Some(0x0064_ff9b_0000_0000_0000_0000_c000_0221)
    );
    // The dotted-quad may only stand last.
    assert_eq!(parse_ipv6("1.2.3.4::"), None);
    assert_eq!(parse_ipv6("::1.2.3.4:5"), None);
    assert_eq!(parse_ipv6("::255.255.255.256"), None);
}

#[test]
fn parse_ipv6_forms() {
    assert_eq!(parse_ipv6("::"), Some(0));
    assert_eq!(parse_ipv6("::1"), Some(1));
    assert_eq!(parse_ipv6("1::"), Some(1u128 << 112));
    assert_eq!(
        parse_ipv6("2001:db8:0:0:0:0:0:1"),
        Some(0x20010db8000000000000000000000001)
    );
    assert_eq!(parse_ipv6("2001:db8::1"), Some(0x20010db8000000000000000000000001));
    assert_eq!(parse_ipv6("fd00:10:244::1"), Some(0xfd000010024400000000000000000001));
    assert_eq!(parse_ipv6("1:2:3:4:5:6:7:8:9"), None);
    assert_eq!(parse_ipv6("1:::2"), None);
    assert_eq!(parse_ipv6(":"), None);
    assert_eq!(parse_ipv6("xyz::1"), None);
}

#[test]
fn cidr_contains_slash24() {
    let net = ip("10.0.0.0");
    for x in [0u32, 1, 77, 255] {
        assert!(cidr_contains(net, 24, IpAddress::V4(0x0A000000 + x)));
    }
    assert!(!cidr_contains(net, 24, ip("10.0.1.0")));
    assert!(!cidr_contains(net, 24, ip("11.0.0.5")));
}

#[test]
fn cidr_edge_prefixes() {
    let net = ip("10.0.0.1");
    assert!(cidr_contains(net, 32, ip("10.0.0.1")));
    assert!(!cidr_contains(net, 32, ip("10.0.0.2")));
    assert!(cidr_contains(net, 0, ip("203.0.113.9")));
    // Families never contain one another.
    assert!(!cidr_contains(net, 8, ip("::1")));
    let net6 = ip("2001:db8::");
    assert!(cidr_contains(net6, 32, ip("2001:db8::42")));
    assert!(!cidr_contains(net6, 32, ip("2001:db9::42")));
}

#[test]
fn ip_matcher_parsing() {
    match parse_ip_matcher("10.0.0.1") {
        Some(IpMatcher::Exact(a)) => assert_eq!(a, ip("10.0.0.1")),
        other => panic!("unexpected: {:?}", other),
    }
    match parse_ip_matcher("10.0.0.0/24") {
        Some(IpMatcher::Cidr(a, p)) => {
            assert_eq!(a, ip("10.0.0.0"));
            assert_eq!(p, 24);
        }
        other => panic!("unexpected: {:?}", other),
    }
    assert!(parse_ip_matcher("not-an-ip").is_none());
    assert!(parse_ip_matcher("10.0.0.0/abc").is_none());
    let m = parse_ip_matcher("10.0.0.0/24").unwrap();
    assert!(ip_matches(&m, ip("10.0.0.200")));
    assert!(!ip_matches(&m, ip("10.0.1.200")));
}

// ── Retry policy ─────────────────────────────────────────────────────

#[test]
fn transient_errors_reset_backoff() {
    let b = next_backoff(32, AttemptOutcome::TransientError);
    assert_eq!(b, INITIAL_BACKOFF_SECS);
    let b = next_backoff(60, AttemptOutcome::CleanEnd);
    assert_eq!(b, INITIAL_BACKOFF_SECS);
}

#[test]
fn persistent_errors_double_to_cap() {
    let mut b = INITIAL_BACKOFF_SECS;
    let expected = [2u64, 4, 8, 16, 32, 60, 60];
    for want in expected {
        b = next_backoff(b, AttemptOutcome::PersistentError);
        assert_eq!(b, want);
    }
    assert!(b <= MAX_BACKOFF_SECS);
}

#[test]
fn transient_signatures() {
    assert!(is_transient("status: h2 protocol error on stream"));
    assert!(is_transient("io error: connection reset by peer"));
    assert!(is_transient("broken pipe"));
    assert!(is_transient("connection refused"));
    assert!(is_transient("transport error"));
    assert!(is_transient("dns error: lookup failed"));
    assert!(is_transient("connection closed before message completed"));
    assert!(is_transient("channel closed"));
    assert!(!is_transient("deadline exceeded"));
    assert_eq!(classify_outcome(None), AttemptOutcome::CleanEnd);
    assert_eq!(
        classify_outcome(Some("broken pipe while writing")),
        AttemptOutcome::TransientError
    );
    assert_eq!(classify_outcome(Some("permission denied")), AttemptOutcome::PersistentError);
}

// ── Operator state ───────────────────────────────────────────────────

#[test]
fn operator_upsert_and_skip() {
    let mut state = OperatorState::new();
    let a = ip("10.0.0.1");
    state.upsert(a, cached(ResourceKind::Pod, "ns", "p", "", ""));
    assert_eq!(state.upserts_total(), 1);
    assert_eq!(state.upserts_skipped(), 0);
    // The same identity again: skipped, nothing broadcast.
    state.upsert(a, cached(ResourceKind::Pod, "ns", "p", "", ""));
    assert_eq!(state.upserts_total(), 1);
    assert_eq!(state.upserts_skipped(), 1);
    let history = state.updates_since(0);
    assert_eq!(history.len(), 1);
    assert_eq!(history[0].update_type, UpdateType::Upsert);
}

#[test]
fn operator_delete_needs_matching_kind() {
    let mut state = OperatorState::new();
    let a = ip("192.168.1.5");
    state.upsert(a, cached(ResourceKind::Node, "", "", "", "node-1"));
    // A pod delete on a node-owned address leaves the entry intact.
    let removed = state.delete(a, ResourceKind::Pod);
    assert!(!removed);
    assert_eq!(state.snapshot().len(), 1);
    let removed = state.delete(a, ResourceKind::Node);
    assert!(removed);
    assert_eq!(state.snapshot().len(), 0);
    assert_eq!(state.deletes_total(), 1);
}

#[test]
fn operator_subscribe_before_snapshot_loses_nothing() {
    let mut state = OperatorState::new();
    state.upsert(ip("10.0.0.1"), cached(ResourceKind::Pod, "ns", "a", "", ""));
    // An agent subscribes, then takes its snapshot.
    let pos = state.subscribe();
    let snapshot = state.snapshot();
    assert_eq!(snapshot.len(), 1);
    // An update lands after the subscription: it is in the observed stream.
    state.upsert(ip("10.0.0.2"), cached(ResourceKind::Pod, "ns", "b", "", ""));
    let observed = state.updates_since(pos);
    assert_eq!(observed.len(), 1);
    assert_eq!(observed[0].ip, Some(ip("10.0.0.2")));
    // Update B is seen exactly once: absent from the snapshot, once live.
    assert!(snapshot.iter().all(|u| u.ip != Some(ip("10.0.0.2"))));
}

#[test]
fn operator_shutdown_sentinel() {
    let mut state = OperatorState::new();
    let pos = state.subscribe();
    state.broadcast_shutdown();
    let observed = state.updates_since(pos);
    assert_eq!(observed.len(), 1);
    assert_eq!(observed[0].update_type, UpdateType::Shutdown);
}

#[test]
fn operator_initial_stream_composes_snapshot() {
    let mut state = OperatorState::new();
    state.upsert(ip("10.0.0.1"), cached(ResourceKind::Pod, "ns", "a", "", ""));
    state.upsert(ip("10.0.0.2"), cached(ResourceKind::Pod, "ns", "b", "", ""));
    let (updates, pos) = state.initial_stream();
    // The whole snapshot, then the sync-complete terminator.
    assert_eq!(updates.len(), 3);
    assert!(updates[0].update_type == UpdateType::Upsert);
    assert!(updates[1].update_type == UpdateType::Upsert);
    assert_eq!(updates[2].update_type, UpdateType::SyncComplete);
    // An update after the stream opened is observed from the position on.
    state.upsert(ip("10.0.0.3"), cached(ResourceKind::Pod, "ns", "c", "", ""));
    let live = state.updates_since(pos);
    assert_eq!(live.len(), 1);
    assert_eq!(live[0].ip, Some(ip("10.0.0.3")));
}

#[test]
fn ipcache_broadcasts_change_events() {
    let mut cache = IpCache::new();
    let pos = cache.subscribe();
    let id = Identity {
        namespace: "ns".to_string(),
        pod_name: "p".to_string(),
        service_name: String::new(),
        node_name: String::new(),
        labels: vec![],
        workloads: vec![],
    };
    cache.upsert(ip("10.0.0.1"), id);
    // A delete of an absent address broadcasts nothing.
    cache.delete(ip("10.0.0.9"));
    cache.delete(ip("10.0.0.1"));
    cache.clear();
    let events = cache.events_since(pos);
    assert_eq!(events.len(), 3);
    match &events[0] {
        IpCacheEvent::Upsert(a, ident) => {
            assert_eq!(*a, ip("10.0.0.1"));
            assert_eq!(ident.pod_name, "p");
        }
        other => panic!("unexpected event: {:?}", other),
    }
    assert!(matches!(events[1], IpCacheEvent::Delete(a) if a == ip("10.0.0.1")));
    assert!(matches!(events[2], IpCacheEvent::Clear));
}

// ── The agent's sync session ─────────────────────────────────────────

#[test]
fn sync_applies_snapshot_then_marks_synced() {
    let mut operator = OperatorState::new();
    operator.upsert(ip("10.0.0.1"), cached(ResourceKind::Pod, "ns", "a", "", ""));
    operator.upsert(ip("10.0.0.2"), cached(ResourceKind::Service, "ns", "", "svc", ""));

    let mut cache = IpCache::new();
    let mut session = SyncSession::new();
    for update in operator.snapshot() {
        match session.apply_update(&mut cache, &update) {
            SyncStep::Upserted(ev) => assert!(ev.is_none()),
            other => panic!("unexpected step: {:?}", other),
        }
    }
    assert!(!cache.is_synced());
    let mut sync_complete = operator.snapshot()[0].clone();
    sync_complete.update_type = UpdateType::SyncComplete;
    assert!(matches!(
        session.apply_update(&mut cache, &sync_complete),
        SyncStep::SyncCompleted
    ));
    assert!(cache.is_synced());
    assert_eq!(cache.len(), 2);
    assert_eq!(cache.get(ip("10.0.0.1")).unwrap().pod_name, "a");

    // After the initial sync, updates carry agent events.
    let mut live = operator.snapshot()[0].clone();
    live.update_type = UpdateType::Upsert;
    match session.apply_update(&mut cache, &live) {
        SyncStep::Upserted(ev) => assert!(ev.is_some()),
        other => panic!("unexpected step: {:?}", other),
    }
}

#[test]
fn sync_shutdown_preserves_cache() {
    let mut cache = IpCache::new();
    cache.upsert(ip("10.0.0.1"), Identity {
        namespace: "ns".to_string(),
        pod_name: "p".to_string(),
        service_name: String::new(),
        node_name: String::new(),
        labels: vec![],
        workloads: vec![],
    });
    cache.mark_synced();
    // A graceful shutdown preserves the cache across the reconnect window.
    end_of_stream(&mut cache, true);
    assert!(cache.is_synced());
    assert_eq!(cache.len(), 1);
    // Any other disconnect clears it.
    end_of_stream(&mut cache, false);
    assert!(!cache.is_synced());
    assert_eq!(cache.len(), 0);
}

// ── Peers ────────────────────────────────────────────────────────────

#[test]
fn peer_set_transitions() {
    let mut peers = PeerSet::new();
    let node = Identity {
        namespace: String::new(),
        pod_name: String::new(),
        service_name: String::new(),
        node_name: "node-1".to_string(),
        labels: vec![],
        workloads: vec![],
    };
    let n = peers.handle_upsert(ip("192.168.1.5"), &node).unwrap();
    assert_eq!(n.kind, ChangeKind::PeerAdded);
    assert_eq!(n.name, "node-1");
    // The same node at the same address: nothing new.
    assert!(peers.handle_upsert(ip("192.168.1.5"), &node).is_none());
    // The same node at a new address: an update.
    let n = peers.handle_upsert(ip("192.168.1.9"), &node).unwrap();
    assert_eq!(n.kind, ChangeKind::PeerUpdated);
    // A delete of its address: the peer goes.
    let n = peers.handle_delete(ip("192.168.1.9")).unwrap();
    assert_eq!(n.kind, ChangeKind::PeerDeleted);
    assert_eq!(n.name, "node-1");
    // A non-node identity is ignored.
    let pod = Identity {
        namespace: "ns".to_string(),
        pod_name: "p".to_string(),
        service_name: String::new(),
        node_name: String::new(),
        labels: vec![],
        workloads: vec![],
    };
    assert!(peers.handle_upsert(ip("10.0.0.1"), &pod).is_none());
}

#[test]
fn peer_clear_deletes_all() {
    let mut peers = PeerSet::new();
    let mk = |name: &str| Identity {
        namespace: String::new(),
        pod_name: String::new(),
        service_name: String::new(),
        node_name: name.to_string(),
        labels: vec![],
        workloads: vec![],
    };
    peers.handle_upsert(ip("192.168.1.5"), &mk("node-a"));
    peers.handle_upsert(ip("192.168.1.6"), &mk("node-b"));
    let deletes = peers.handle_clear();
    assert_eq!(deletes.len(), 2);
    assert!(deletes.iter().all(|d| d.kind == ChangeKind::PeerDeleted));
    assert!(peers.known_peers().is_empty());
}

#[test]
fn peer_reconcile_after_lag() {
    let mut peers = PeerSet::new();
    let mk = |name: &str| Identity {
        namespace: String::new(),
        pod_name: String::new(),
        service_name: String::new(),
        node_name: name.to_string(),
        labels: vec![],
        workloads: vec![],
    };
    peers.handle_upsert(ip("192.168.1.5"), &mk("gone"));
    peers.handle_upsert(ip("192.168.1.6"), &mk("stays"));
    let current = vec![
        ("stays".to_string(), ip("192.168.1.7")),
        ("fresh".to_string(), ip("192.168.1.8")),
    ];
    let notifications = peers.reconcile(current);
    let kinds: Vec<(String, ChangeKind)> =
        notifications.into_iter().map(|n| (n.name, n.kind)).collect();
    assert!(kinds.contains(&("gone".to_string(), ChangeKind::PeerDeleted)));
    assert!(kinds.contains(&("stays".to_string(), ChangeKind::PeerUpdated)));
    assert!(kinds.contains(&("fresh".to_string(), ChangeKind::PeerAdded)));
    assert_eq!(peers.known_peers().len(), 2);
}

// ── Watchers ─────────────────────────────────────────────────────────

#[test]
fn pod_apply_skips_host_network_and_formats_labels() {
    let mut state = OperatorState::new();
    let host_pod = PodFields {
        name: "hostpod".to_string(),
        namespace: "kube-system".to_string(),
        host_network: true,
        pod_ips: vec!["192.168.1.5".to_string()],
        labels: vec![],
        owner_references: vec![],
    };
    handle_pod_apply(&host_pod, &mut state);
    assert_eq!(state.snapshot().len(), 0);

    let pod = PodFields {
        name: "web-abc".to_string(),
        namespace: "default".to_string(),
        host_network: false,
        pod_ips: vec!["10.0.0.9".to_string(), "".to_string()],
        labels: vec![("app".to_string(), "web".to_string())],
        owner_references: vec![
            retina::operator::CachedWorkload {
                name: "web-abc".to_string(),
                kind: "ReplicaSet".to_string(),
            },
            retina::operator::CachedWorkload {
                name: "noise".to_string(),
                kind: "ConfigMap".to_string(),
            },
        ],
    };
    handle_pod_apply(&pod, &mut state);
    let snap = state.snapshot();
    assert_eq!(snap.len(), 1);
    assert_eq!(snap[0].labels, vec!["app=web".to_string()]);
    assert_eq!(snap[0].workloads.len(), 1);
    assert_eq!(snap[0].workloads[0].kind, "ReplicaSet");

    // The pod delete removes only pod-owned entries.
    let mut del = pod;
    del.host_network = false;
    handle_pod_delete(&del, &mut state);
    assert_eq!(state.snapshot().len(), 0);
}

#[test]
fn service_ips_skip_headless() {
    let svc = ServiceFields {
        name: "redis".to_string(),
        namespace: "backend".to_string(),
        cluster_ip: Some("None".to_string()),
        load_balancer_ips: vec!["203.0.113.7".to_string()],
    };
    let ips = service_ips(&svc);
    assert_eq!(ips, vec![ip("203.0.113.7")]);

    let svc2 = ServiceFields {
        name: "redis".to_string(),
        namespace: "backend".to_string(),
        cluster_ip: Some("10.96.0.10".to_string()),
        load_balancer_ips: vec![],
    };
    let mut state = OperatorState::new();
    handle_service_apply(&svc2, &mut state);
    let snap = state.snapshot();
    assert_eq!(snap.len(), 1);
    assert_eq!(snap[0].service_name, "redis");
}

#[test]
fn node_ips_include_cidr_gateways() {
    assert_eq!(pod_cidr_gateway("10.244.0.0/24"), Some(ip("10.244.0.1")));
    assert_eq!(pod_cidr_gateway("fd00:10:244::/64"), Some(ip("fd00:10:244::1")));
    assert_eq!(pod_cidr_gateway("nonsense"), None);

    let node = NodeFields {
        name: "node-1".to_string(),
        internal_ips: vec!["192.168.1.5".to_string()],
        pod_cidrs: vec!["10.244.0.0/24".to_string()],
    };
    let ips = node_ips(&node);
    assert_eq!(ips, vec![ip("192.168.1.5"), ip("10.244.0.1")]);
    let mut state = OperatorState::new();
    handle_node_apply(&node, &mut state);
    assert_eq!(state.snapshot().len(), 2);
}

// ── Drop events ──────────────────────────────────────────────────────

fn drop_event(reason: u8) -> DropEvent {
    DropEvent {
        ts_ns: 1_000_000_000,
        src_ip: 0x0A000001,
        dst_ip: 0x0A000002,
        src_port: 1234,
        dst_port: 80,
        bytes: 500,
        proto: 6,
        drop_reason: reason,
        direction: DIR_INGRESS,
        return_val: -1,
        pid: 42,
        kernel_drop_reason: 0,
    }
}

#[test]
fn drop_reason_codes_round_trip() {
    for code in 0u8..=8 {
        let r = DropReason::from_u8(code);
        assert_ne!(r, DropReason::Unknown);
    }
    assert_eq!(DropReason::from_u8(99), DropReason::Unknown);
    assert_eq!(DropReason::from_u8(0).as_str(), "IPTABLE_RULE_DROP");
    assert_eq!(DropReason::from_u8(5).as_str(), "KERNEL_DROP");
    assert_eq!(DropReason::from_u8(6).as_str(), "TCP_RETRANSMIT");
}

#[test]
fn errno_names() {
    assert_eq!(errno_name(0), "NF_DROP (0)");
    assert_eq!(errno_name(-111), "ECONNREFUSED (-111)");
    assert_eq!(errno_name(-11), "EAGAIN (-11)");
    assert_eq!(errno_name(-77), "ret=-77");
}

#[test]
fn drop_flow_fields() {
    let table = ReasonTable::new();
    let f = drop_event_to_flow(&drop_event(0), 0, &table);
    assert_eq!(f.verdict, Verdict::Dropped);
    assert_eq!(f.summary, "Drop: IPTABLE_RULE_DROP (EPERM (-1))");
    let ext = f.extensions.as_ref().unwrap();
    assert_eq!(ext.drop_reason.as_deref(), Some("IPTABLE_RULE_DROP"));
    assert_eq!(ext.return_code.as_deref(), Some("EPERM (-1)"));
    assert_eq!(ext.bytes, Some(500));
    assert_eq!(ext.pid, Some(42));
    assert_eq!(f.traffic_direction, TrafficDirection::Ingress);
    assert_eq!(f.trace_observation_point, TraceObservationPoint::FromNetwork);
}

#[test]
fn kernel_drop_uses_resolved_name() {
    let mut table = ReasonTable::new();
    table.insert(2, "NO_SOCKET".to_string());
    let mut ev = drop_event(5);
    ev.kernel_drop_reason = 2;
    let f = drop_event_to_flow(&ev, 0, &table);
    assert_eq!(f.summary, "Drop: NO_SOCKET");
    let ext = f.extensions.unwrap();
    assert_eq!(ext.kernel_drop_reason.as_deref(), Some("NO_SOCKET"));

    let mut unknown = drop_event(5);
    unknown.kernel_drop_reason = 77;
    let f = drop_event_to_flow(&unknown, 0, &table);
    assert_eq!(f.summary, "Drop: UNKNOWN");
    let ext = f.extensions.unwrap();
    assert_eq!(ext.kernel_drop_reason.as_deref(), Some("UNKNOWN_77"));
}

#[test]
fn suppressed_drop_reasons_are_dropped() {
    let table = ReasonTable::new();
    let suppressed = vec!["TCP_RETRANSMIT".to_string()];
    let ev = drop_event(6);
    assert!(process_drop_event(&ev, 0, &table, &suppressed, None).is_none());
    let ev = drop_event(0);
    assert!(process_drop_event(&ev, 0, &table, &suppressed, None).is_some());
}

#[test]
fn drop_event_source_patched_from_pid() {
    let table = ReasonTable::new();
    let mut ev = drop_event(2);
    ev.src_ip = 0;
    let f = process_drop_event(&ev, 0, &table, &vec![], Some(0x0A00002A)).unwrap();
    match f.ip {
        Some(FlowIp { source: IpAddress::V4(s), .. }) => assert_eq!(s, 0x0A00002A),
        other => panic!("unexpected ip: {:?}", other),
    }
}

#[test]
fn fib_trie_first_local_address() {
    let content = "\
Main:
  +-- 0.0.0.0/0 3 0 5
     |-- 127.0.0.1
        /32 host LOCAL
     +-- 10.0.0.0/24 2 0 2
        |-- 10.0.0.7
           /32 host LOCAL
        |-- 10.0.0.255
           /32 link BROADCAST
";
    assert_eq!(first_local_ipv4(content), Some(0x0A000007));
    assert_eq!(first_local_ipv4("no entries here"), None);
}

#[test]
fn direction_mappings() {
    assert_eq!(pkt_type_to_direction(PACKET_HOST), DIR_INGRESS);
    assert_eq!(pkt_type_to_direction(PACKET_OUTGOING), DIR_EGRESS);
    assert_eq!(pkt_type_to_direction(7), DIR_UNKNOWN);
    assert_eq!(nf_hook_to_direction(NF_INET_LOCAL_IN), DIR_INGRESS);
    assert_eq!(nf_hook_to_direction(NF_INET_LOCAL_OUT), DIR_EGRESS);
    assert_eq!(nf_hook_to_direction(9), DIR_UNKNOWN);
    assert_eq!(direction_label(DIR_INGRESS), "INGRESS");
    assert_eq!(direction_label(DIR_EGRESS), "EGRESS");
    assert_eq!(direction_label(DIR_UNKNOWN), "TRAFFIC_DIRECTION_UNKNOWN");
    assert_eq!(Direction::Ingress.encode(), "INGRESS");
}

// ── Metrics ──────────────────────────────────────────────────────────

#[test]
fn drop_metrics_accumulate_across_return_codes() {
    // Two map entries under one label must accumulate, not overwrite.
    let table = ReasonTable::new();
    let entries = vec![
        (
            DropMetricsKey { drop_reason: 0, direction: DIR_INGRESS, return_val: -1 },
            vec![DropMetricsValue { count: 3, bytes: 300 }, DropMetricsValue { count: 2, bytes: 200 }],
        ),
        (
            DropMetricsKey { drop_reason: 0, direction: DIR_INGRESS, return_val: -13 },
            vec![DropMetricsValue { count: 5, bytes: 500 }],
        ),
        (
            DropMetricsKey { drop_reason: 6, direction: DIR_EGRESS, return_val: 0 },
            vec![DropMetricsValue { count: 1, bytes: 10 }],
        ),
    ];
    let out = aggregate_drop_metrics(&entries, &table);
    assert_eq!(out.len(), 2);
    let rule = out
        .iter()
        .find(|a| a.reason == "IPTABLE_RULE_DROP" && a.direction == "INGRESS")
        .unwrap();
    assert_eq!(rule.count, 10);
    assert_eq!(rule.bytes, 1000);
    let retrans = out
        .iter()
        .find(|a| a.reason == "TCP_RETRANSMIT" && a.direction == "EGRESS")
        .unwrap();
    assert_eq!(retrans.count, 1);
    assert_eq!(retrans.bytes, 10);
}

#[test]
fn ttl_sweep_evicts_stale_label_sets() {
    let mut table = TtlTable::new();
    let labels = |ns: &str| DropFlowLabels {
        reason: String::new(),
        labels: ForwardLabels {
            direction: Direction::Ingress,
            source_ip: None,
            source_namespace: ns.to_string(),
            source_podname: String::new(),
            source_workload_kind: String::new(),
            source_workload_name: String::new(),
            destination_ip: None,
            destination_namespace: String::new(),
            destination_podname: String::new(),
            destination_workload_kind: String::new(),
            destination_workload_name: String::new(),
        },
    };
    table.touch(labels("old"), 100);
    table.touch(labels("fresh"), 900);
    // Sweep with a TTL of 300 at time 1000: only the stale set goes.
    let removed = table.sweep(300, 1000);
    assert_eq!(removed.len(), 1);
    assert_eq!(removed[0].labels.source_namespace, "old");
    assert_eq!(table.len(), 1);
    // Touching an existing set refreshes it in place: the refreshed
    // series survives a sweep that would have evicted its old timestamp.
    table.touch(labels("fresh"), 2000);
    assert_eq!(table.len(), 1);
    let removed = table.sweep(300, 2100);
    assert!(removed.is_empty());
    assert_eq!(table.len(), 1);
}

#[test]
fn agent_state_readiness() {
    let mut state = AgentState::new();
    assert!(!state.healthz_ok());
    state.reader_started();
    assert!(state.healthz_ok());
    assert!(!state.readyz_ok(false, false));
    state.plugin_started = true;
    state.grpc_bound = true;
    assert!(state.readyz_ok(false, false));
    // With an operator configured, readiness also needs the synced flag.
    assert!(!state.readyz_ok(true, false));
    assert!(state.readyz_ok(true, true));
    state.reader_stopped();
    assert!(!state.healthz_ok());
}

// ── Configuration ────────────────────────────────────────────────────

#[test]
fn suppress_config_parsing() {
    let text = "\
suppressedDropReasons:
  - TCP_RETRANSMIT
  - KERNEL_DROP

otherKey: 7
";
    let parsed = parse_suppress_config(text);
    assert_eq!(parsed, vec!["TCP_RETRANSMIT".to_string(), "KERNEL_DROP".to_string()]);
    assert!(parse_suppress_config("").is_empty());
    assert!(parse_suppress_config("unrelated: [1, 2]").is_empty());
}

#[test]
fn ring_size_validation() {
    assert!(valid_ring_size(65536));
    assert!(valid_ring_size(2_097_152));
    assert!(!valid_ring_size(65535));
    assert!(!valid_ring_size(100_000));
    assert!(!valid_ring_size(0));
    let config = AgentConfig {
        extra_interfaces: vec![],
        pod_level: true,
        hubble_port: 4244,
        operator_addr: None,
        sampling_rate: 1,
        ring_buffer_size: 2_097_152,
        enable_dropreason: false,
        dropreason_ring_buffer_size: 1_048_576,
        suppressed_drop_reasons: vec![],
        log_level: "info".to_string(),
        metrics_port: 10093,
    };
    assert!(config.validate());
}

// ── Process inspection text ──────────────────────────────────────────

#[test]
fn kb_field_parsing() {
    assert_eq!(parse_kb_field("VmRSS:\t  1234 kB"), 1234);
    assert_eq!(parse_kb_field("Threads:\t17"), 17);
    assert_eq!(parse_kb_field("Threads: 17"), 17);
    assert_eq!(parse_kb_field("VmRSS:"), 0);
    assert_eq!(parse_kb_field("VmRSS: abc kB"), 0);
}

#[test]
fn map_region_size_parsing() {
    // 0x2000 - 0x1000 = 4096 bytes = 4 KiB.
    assert_eq!(parse_map_region_size("1000-2000 r-xp 00000000 08:01 123 /bin/x"), 4);
    assert_eq!(parse_map_region_size(""), 0);
    assert_eq!(parse_map_region_size("garbage"), 0);
}

#[test]
fn map_region_classification() {
    let binary = "agentd";
    assert_eq!(classify_map_line("7f00-7f10 rw-s anon_inode:[perf_event]", binary), MapRegionClass::PerfEvent);
    assert_eq!(classify_map_line("7f00-7f10 rw-s bpf-ringbuf", binary), MapRegionClass::RingBuf);
    assert_eq!(classify_map_line("7f00-7f10 rw-s bpf-map", binary), MapRegionClass::BpfMap);
    assert_eq!(classify_map_line("5000-6000 rw-p [heap]", binary), MapRegionClass::Heap);
    assert_eq!(classify_map_line("7ffd-7ffe rw-p [stack]", binary), MapRegionClass::ThreadStack);
    assert_eq!(classify_map_line("4000-5000 r-xp /usr/bin/agentd", binary), MapRegionClass::Binary);
    assert_eq!(classify_map_line("7f20-7f30 r-xp /lib/libc.so.6", binary), MapRegionClass::SharedLib);
    assert_eq!(classify_map_line("7f40-7f50 rw-p ", binary), MapRegionClass::Anonymous);

    // Whole-text summary: sizes land in the right buckets, in kilobytes.
    let text = "\
1000-2000 rw-p [heap]
3000-5000 r-xp /usr/bin/agentd
7000-7400 rw-p
";
    let summary = maps_summary(text, binary);
    assert_eq!(summary.total_regions, 3);
    assert_eq!(summary.heap_kb, 4);
    assert_eq!(summary.binary_kb, 8);
    assert_eq!(summary.anonymous_kb, 1);
}

// ── Text utilities ───────────────────────────────────────────────────

#[test]
fn text_helpers() {
    assert_eq!(trim("  hello \t"), "hello");
    assert_eq!(trim(""), "");
    assert_eq!(parse_u64("12345"), Some(12345));
    assert_eq!(parse_u64("12a"), None);
    assert_eq!(split_char("a,b,,c", ','), vec!["a", "b", "", "c"]);
    assert_eq!(split_char("", ','), vec![""]);
    assert!(str_le("abc", "abd"));
    assert!(str_le("ab", "abc"));
    assert!(!str_le("b", "abc"));
}

// ── Observer helpers ─────────────────────────────────────────────────

fn flow_at(stamp: i64) -> Flow {
    Flow {
        time_s: stamp,
        time_ns: 0,
        verdict: Verdict::Forwarded,
        ip: None,
        l4: None,
        source: None,
        destination: None,
        source_names: vec![],
        destination_names: vec![],
        traffic_direction: TrafficDirection::Unknown,
        is_reply: None,
        event_type: None,
        trace_observation_point: TraceObservationPoint::Unknown,
        extensions: None,
        summary: String::new(),
        node_name: String::new(),
    }
}

#[test]
fn time_windows() {
    let f = flow_at(100);
    let since = Some(TimeBound { seconds: 50, nanos: 0 });
    let until = Some(TimeBound { seconds: 150, nanos: 0 });
    assert!(flow_in_time_range(&f, since, until));
    assert!(!flow_in_time_range(&f, Some(TimeBound { seconds: 101, nanos: 0 }), None));
    assert!(!flow_in_time_range(&f, None, Some(TimeBound { seconds: 99, nanos: 0 })));
    assert!(flow_past_until(&f, Some(TimeBound { seconds: 99, nanos: 0 })));
    assert!(!flow_past_until(&f, None));
}

#[test]
fn historical_selection() {
    let flows = vec![flow_at(10), flow_at(20), flow_at(30)];
    let filters = FlowFilterSet::compile(&vec![], &vec![]);
    let out = select_historical(
        flows,
        Some(TimeBound { seconds: 15, nanos: 0 }),
        Some(TimeBound { seconds: 25, nanos: 0 }),
        &filters,
    );
    assert_eq!(out.len(), 1);
    assert_eq!(out[0].time_s, 20);
}

// ── The pod-interface tracker ────────────────────────────────────────

#[test]
fn veth_tracker_attach_detach() {
    let mut tracker = VethTracker::new();
    let pod_link = LinkFields {
        ifindex: 7,
        ifname: "vethabc".to_string(),
        has_peer_netns: true,
    };
    let host_link = LinkFields {
        ifindex: 8,
        ifname: "eth0".to_string(),
        has_peer_netns: false,
    };
    assert!(tracker.handle_new_link(&pod_link));
    // Already attached: nothing to do.
    assert!(!tracker.handle_new_link(&pod_link));
    // Not a pod interface: nothing to do.
    assert!(!tracker.handle_new_link(&host_link));
    assert!(tracker.handle_del_link(7));
    assert!(!tracker.handle_del_link(7));
}
