use retina::filter::{FlowFilter, FlowFilterSet, glob_match, PodMatcher, tcp_flags_subset};
use retina::flow::{Flow, FlowIp, Layer4, TcpFlags, Verdict, TrafficDirection,
    TraceObservationPoint, Endpoint};
use retina::net::{parse_ip, IpAddress, IpVersion};

fn ip(s: &str) -> IpAddress {
    parse_ip(s).unwrap()
}

fn flags_syn_ack() -> TcpFlags {
    TcpFlags { fin: false, syn: true, rst: false, psh: false, ack: true, urg: false, ece: false, cwr: false, ns: false }
}

fn no_flags() -> TcpFlags {
    TcpFlags { fin: false, syn: false, rst: false, psh: false, ack: false, urg: false, ece: false, cwr: false, ns: false }
}

fn make_flow() -> Flow {
    Flow {
        time_s: 0,
        time_ns: 0,
        verdict: Verdict::Forwarded,
        ip: Some(FlowIp { source: ip("10.0.0.1"), destination: ip("10.0.0.2") }),
        l4: Some(Layer4::Tcp {
            source_port: 12345,
            destination_port: 80,
            flags: Some(flags_syn_ack()),
        }),
        source: Some(Endpoint {
            identity: 100,
            namespace: "default".to_string(),
            pod_name: "web-abc123".to_string(),
            labels: vec!["app=web".to_string(), "env=prod".to_string()],
            workloads: vec![],
        }),
        destination: Some(Endpoint {
            identity: 200,
            namespace: "kube-system".to_string(),
            pod_name: "coredns-xyz".to_string(),
            labels: vec!["k8s-app=kube-dns".to_string()],
            workloads: vec![],
        }),
        source_names: vec![],
        destination_names: vec![],
        traffic_direction: TrafficDirection::Egress,
        is_reply: Some(false),
        event_type: None,
        trace_observation_point: TraceObservationPoint::Unknown,
        extensions: None,
        summary: String::new(),
        node_name: "node-1".to_string(),
    }
}

fn compile(wl: Vec<FlowFilter>, bl: Vec<FlowFilter>) -> FlowFilterSet {
    FlowFilterSet::compile(&wl, &bl)
}

#[test]
fn empty_filter_passes_all() {
    let fs = compile(vec![], vec![]);
    assert!(fs.is_empty());
    assert!(fs.matches(&make_flow()));
}

#[test]
fn whitelist_source_ip_exact() {
    let wl = vec![FlowFilter { source_ip: vec!["10.0.0.1".to_string()], ..Default::default() }];
    let fs = compile(wl, vec![]);
    assert!(fs.matches(&make_flow()));

    let wl_miss = vec![FlowFilter { source_ip: vec!["10.0.0.99".to_string()], ..Default::default() }];
    let fs_miss = compile(wl_miss, vec![]);
    assert!(!fs_miss.matches(&make_flow()));
}

#[test]
fn whitelist_source_ip_cidr() {
    let wl = vec![FlowFilter { source_ip: vec!["10.0.0.0/24".to_string()], ..Default::default() }];
    let fs = compile(wl, vec![]);
    assert!(fs.matches(&make_flow()));

    let wl_miss = vec![FlowFilter { source_ip: vec!["192.168.0.0/16".to_string()], ..Default::default() }];
    let fs_miss = compile(wl_miss, vec![]);
    assert!(!fs_miss.matches(&make_flow()));
}

#[test]
fn blacklist_excludes() {
    let bl = vec![FlowFilter { source_ip: vec!["10.0.0.1".to_string()], ..Default::default() }];
    let fs = compile(vec![], bl);
    assert!(!fs.matches(&make_flow()));
}

#[test]
fn whitelist_minus_blacklist() {
    let wl = vec![FlowFilter { source_ip: vec!["10.0.0.0/24".to_string()], ..Default::default() }];
    let bl = vec![FlowFilter { source_ip: vec!["10.0.0.1".to_string()], ..Default::default() }];
    let fs = compile(wl, bl);
    assert!(!fs.matches(&make_flow()));
}

#[test]
fn filter_source_pod() {
    let wl = vec![FlowFilter { source_pod: vec!["default/web".to_string()], ..Default::default() }];
    let fs = compile(wl, vec![]);
    assert!(fs.matches(&make_flow()));
}

#[test]
fn filter_destination_pod_namespace_only() {
    let wl = vec![FlowFilter {
        destination_pod: vec!["kube-system/".to_string()],
        ..Default::default()
    }];
    let fs = compile(wl, vec![]);
    assert!(fs.matches(&make_flow()));
}

#[test]
fn filter_verdict() {
    let wl = vec![FlowFilter { verdict: vec![Verdict::Forwarded], ..Default::default() }];
    let fs = compile(wl, vec![]);
    assert!(fs.matches(&make_flow()));

    let wl_miss = vec![FlowFilter { verdict: vec![Verdict::Dropped], ..Default::default() }];
    let fs_miss = compile(wl_miss, vec![]);
    assert!(!fs_miss.matches(&make_flow()));
}

#[test]
fn filter_protocol() {
    let wl = vec![FlowFilter { protocol: vec!["TCP".to_string()], ..Default::default() }];
    let fs = compile(wl, vec![]);
    assert!(fs.matches(&make_flow()));

    let wl_miss = vec![FlowFilter { protocol: vec!["udp".to_string()], ..Default::default() }];
    let fs_miss = compile(wl_miss, vec![]);
    assert!(!fs_miss.matches(&make_flow()));
}

#[test]
fn filter_destination_port() {
    let wl = vec![FlowFilter { destination_port: vec!["80".to_string()], ..Default::default() }];
    let fs = compile(wl, vec![]);
    assert!(fs.matches(&make_flow()));
}

#[test]
fn filter_tcp_flags() {
    let wl = vec![FlowFilter {
        tcp_flags: vec![TcpFlags { syn: true, ..no_flags() }],
        ..Default::default()
    }];
    let fs = compile(wl, vec![]);
    assert!(fs.matches(&make_flow()));
}

#[test]
fn filter_label_match() {
    let wl = vec![FlowFilter { source_label: vec!["app=web".to_string()], ..Default::default() }];
    let fs = compile(wl, vec![]);
    assert!(fs.matches(&make_flow()));
}

#[test]
fn filter_label_no_match() {
    let wl = vec![FlowFilter {
        source_label: vec!["app=nonexistent".to_string()],
        ..Default::default()
    }];
    let fs = compile(wl, vec![]);
    assert!(!fs.matches(&make_flow()));
}

#[test]
fn filter_node_name_glob() {
    let wl = vec![FlowFilter { node_name: vec!["node-*".to_string()], ..Default::default() }];
    let fs = compile(wl, vec![]);
    assert!(fs.matches(&make_flow()));
}

#[test]
fn filter_identity() {
    let wl = vec![FlowFilter { source_identity: vec![100], ..Default::default() }];
    let fs = compile(wl, vec![]);
    assert!(fs.matches(&make_flow()));

    let wl_miss = vec![FlowFilter { source_identity: vec![999], ..Default::default() }];
    let fs_miss = compile(wl_miss, vec![]);
    assert!(!fs_miss.matches(&make_flow()));
}

#[test]
fn and_within_filter() {
    // source_ip AND destination_port must both match.
    let wl = vec![FlowFilter {
        source_ip: vec!["10.0.0.1".to_string()],
        destination_port: vec!["443".to_string()], // the flow has port 80
        ..Default::default()
    }];
    let fs = compile(wl, vec![]);
    assert!(!fs.matches(&make_flow()));
}

#[test]
fn or_across_whitelist_filters() {
    // Two filters: the first misses, the second matches.
    let wl = vec![
        FlowFilter { source_ip: vec!["192.168.0.1".to_string()], ..Default::default() },
        FlowFilter { source_ip: vec!["10.0.0.1".to_string()], ..Default::default() },
    ];
    let fs = compile(wl, vec![]);
    assert!(fs.matches(&make_flow()));
}

#[test]
fn glob_match_exact() {
    assert!(glob_match("node-1", "node-1"));
    assert!(!glob_match("node-1", "node-2"));
}

#[test]
fn glob_match_trailing_star() {
    assert!(glob_match("node-*", "node-1"));
    assert!(glob_match("node-*", "node-abc"));
    assert!(!glob_match("node-*", "other-1"));
}

#[test]
fn glob_match_leading_star() {
    assert!(glob_match("*.example.com", "foo.example.com"));
    assert!(!glob_match("*.example.com", "foo.other.com"));
}

#[test]
fn glob_match_middle_star() {
    assert!(glob_match("cluster-*/node-*", "cluster-a/node-1"));
    assert!(!glob_match("cluster-*/node-*", "cluster-a/pod-1"));
}

#[test]
fn glob_match_star_alone() {
    assert!(glob_match("*", ""));
    assert!(glob_match("*", "anything"));
    assert!(glob_match("a*b", "ab"));
    assert!(glob_match("a*b", "axyzb"));
    assert!(!glob_match("a*b", "a"));
    assert!(!glob_match("a*b", "ba"));
}

#[test]
fn filter_reply() {
    let wl = vec![FlowFilter { reply: vec![false], ..Default::default() }];
    let fs = compile(wl, vec![]);
    assert!(fs.matches(&make_flow()));

    let wl_miss = vec![FlowFilter { reply: vec![true], ..Default::default() }];
    let fs_miss = compile(wl_miss, vec![]);
    assert!(!fs_miss.matches(&make_flow()));
}

#[test]
fn filter_ip_version() {
    let wl = vec![FlowFilter { ip_version: vec![IpVersion::V4], ..Default::default() }];
    let fs = compile(wl, vec![]);
    assert!(fs.matches(&make_flow()));

    let wl_miss = vec![FlowFilter { ip_version: vec![IpVersion::V6], ..Default::default() }];
    let fs_miss = compile(wl_miss, vec![]);
    assert!(!fs_miss.matches(&make_flow()));
}

#[test]
fn filter_traffic_direction() {
    let wl = vec![FlowFilter {
        traffic_direction: vec![TrafficDirection::Egress],
        ..Default::default()
    }];
    let fs = compile(wl, vec![]);
    assert!(fs.matches(&make_flow()));
}

#[test]
fn tcp_flags_filter_is_subset_match() {
    // A SYN-only filter matches SYN, SYN-ACK and SYN-FIN, but not bare ACK.
    let filter = TcpFlags { syn: true, ..no_flags() };
    let syn = TcpFlags { syn: true, ..no_flags() };
    let syn_ack = TcpFlags { syn: true, ack: true, ..no_flags() };
    let syn_fin = TcpFlags { syn: true, fin: true, ..no_flags() };
    let ack = TcpFlags { ack: true, ..no_flags() };
    assert!(tcp_flags_subset(&filter, &syn));
    assert!(tcp_flags_subset(&filter, &syn_ack));
    assert!(tcp_flags_subset(&filter, &syn_fin));
    assert!(!tcp_flags_subset(&filter, &ack));
}

#[test]
fn pod_matcher_forms() {
    let m = PodMatcher::parse("ns1/web");
    assert!(m.matches("ns1", "web-abc"));
    assert!(!m.matches("ns2", "web-abc"));
    let m = PodMatcher::parse("/web");
    assert!(m.matches("anyns", "web-abc"));
    assert!(!m.matches("anyns", "api-abc"));
    let m = PodMatcher::parse("ns1/");
    assert!(m.matches("ns1", "anything"));
    let m = PodMatcher::parse("web");
    assert!(m.matches("other", "web-xyz"));
}

#[test]
fn whitelist_blacklist_scenario() {
    // A /24 whitelist on port 80 with a pod-name blacklist: the web pod is
    // subtracted, another pod passes.
    let wl = vec![FlowFilter {
        source_ip: vec!["10.0.0.0/24".to_string()],
        destination_port: vec!["80".to_string()],
        ..Default::default()
    }];
    let bl = vec![FlowFilter { source_pod: vec!["/web".to_string()], ..Default::default() }];
    let fs = compile(wl, bl);
    let flow = make_flow();
    assert!(!fs.matches(&flow));

    let mut other = make_flow();
    if let Some(src) = other.source.as_mut() {
        src.pod_name = "api-abc".to_string();
    }
    let wl2 = vec![FlowFilter {
        source_ip: vec!["10.0.0.0/24".to_string()],
        destination_port: vec!["80".to_string()],
        ..Default::default()
    }];
    let bl2 = vec![FlowFilter { source_pod: vec!["/web".to_string()], ..Default::default() }];
    let fs2 = compile(wl2, bl2);
    assert!(fs2.matches(&other));
}
