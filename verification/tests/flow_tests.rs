use retina::conntrack::{PacketEvent, TcpFlagsCount, ConntrackMetadata, TCP_SYN, TCP_ACK,
    TCP_FIN, TCP_RST, IPPROTO_TCP, IPPROTO_UDP, OBS_TO_ENDPOINT, OBS_FROM_NETWORK, DIR_INGRESS};
use retina::flow::{packet_event_to_flow, tcp_flags_to_proto, tcp_flags_summary, make_extensions,
    Layer4, Verdict, EventType, MESSAGE_TYPE_TRACE, TRACE_TO_LXC, TRACE_FROM_NETWORK};

fn make_pkt() -> PacketEvent {
    PacketEvent {
        ts_ns: 1_700_000_000_000_000_000,
        bytes: 1500,
        src_ip: 0x0A000001,
        dst_ip: 0x0A000002,
        src_port: 12345,
        dst_port: 80,
        proto: IPPROTO_TCP,
        observation_point: OBS_TO_ENDPOINT,
        traffic_direction: DIR_INGRESS,
        flags: TCP_SYN | TCP_ACK,
        is_reply: 0,
        previously_observed_packets: 0,
        previously_observed_bytes: 0,
        prev_flags: TcpFlagsCount::zero(),
        ct_metadata: ConntrackMetadata::zero(),
    }
}

#[test]
fn event_type_set() {
    let pkt = make_pkt();
    let f = packet_event_to_flow(&pkt, 0);
    let et = f.event_type.unwrap();
    assert_eq!(et, EventType { event_type: MESSAGE_TYPE_TRACE, sub_type: TRACE_TO_LXC });
}

#[test]
fn event_type_from_network() {
    let mut pkt = make_pkt();
    pkt.observation_point = OBS_FROM_NETWORK;
    let f = packet_event_to_flow(&pkt, 0);
    let et = f.event_type.unwrap();
    assert_eq!(et.sub_type, TRACE_FROM_NETWORK);
}

#[test]
fn extensions_bytes() {
    let pkt = make_pkt();
    let f = packet_event_to_flow(&pkt, 0);
    let ext = f.extensions.unwrap();
    assert_eq!(ext.bytes, Some(1500));
}

#[test]
fn extensions_none_when_zero_bytes() {
    let mut pkt = make_pkt();
    pkt.bytes = 0;
    let f = packet_event_to_flow(&pkt, 0);
    assert!(f.extensions.is_none());
}

#[test]
fn summary_tcp_flags() {
    let pkt = make_pkt(); // SYN | ACK
    let f = packet_event_to_flow(&pkt, 0);
    assert_eq!(f.summary, "TCP Flags: SYN-ACK");
}

#[test]
fn summary_tcp_syn_only() {
    let mut pkt = make_pkt();
    pkt.flags = TCP_SYN;
    let f = packet_event_to_flow(&pkt, 0);
    assert_eq!(f.summary, "TCP Flags: SYN");
}

#[test]
fn summary_tcp_no_flags() {
    let mut pkt = make_pkt();
    pkt.flags = 0;
    let f = packet_event_to_flow(&pkt, 0);
    assert_eq!(f.summary, "TCP");
}

#[test]
fn summary_udp() {
    let mut pkt = make_pkt();
    pkt.proto = IPPROTO_UDP;
    let f = packet_event_to_flow(&pkt, 0);
    assert_eq!(f.summary, "UDP");
}

#[test]
fn summary_tcp_fin_rst() {
    let mut pkt = make_pkt();
    pkt.flags = TCP_FIN | TCP_RST;
    let f = packet_event_to_flow(&pkt, 0);
    assert_eq!(f.summary, "TCP Flags: FIN, RST");
}

#[test]
fn summary_general_ordering() {
    let flags = tcp_flags_to_proto(TCP_SYN | TCP_ACK | TCP_FIN);
    assert_eq!(tcp_flags_summary(&flags), "TCP Flags: SYN-ACK, FIN");
    let flags = tcp_flags_to_proto(TCP_ACK | TCP_FIN);
    assert_eq!(tcp_flags_summary(&flags), "TCP Flags: ACK, FIN");
}

#[test]
fn timestamp_offset_applied() {
    let mut pkt = make_pkt();
    pkt.ts_ns = 1_500_000_000;
    let f = packet_event_to_flow(&pkt, 2_000_000_000);
    assert_eq!(f.time_s, 3);
    assert_eq!(f.time_ns, 500_000_000);
    assert_eq!(f.verdict, Verdict::Forwarded);
}

#[test]
fn layer4_variants() {
    let pkt = make_pkt();
    let f = packet_event_to_flow(&pkt, 0);
    match f.l4 {
        Some(Layer4::Tcp { source_port, destination_port, flags }) => {
            assert_eq!(source_port, 12345);
            assert_eq!(destination_port, 80);
            let flags = flags.unwrap();
            assert!(flags.syn && flags.ack && !flags.fin);
        }
        _ => panic!("expected a TCP layer"),
    }
    let mut udp = make_pkt();
    udp.proto = IPPROTO_UDP;
    let f = packet_event_to_flow(&udp, 0);
    assert!(matches!(f.l4, Some(Layer4::Udp { .. })));
    let mut other = make_pkt();
    other.proto = 1;
    let f = packet_event_to_flow(&other, 0);
    assert!(f.l4.is_none());
    assert_eq!(f.summary, "");
}

#[test]
fn extensions_builder() {
    assert!(make_extensions(0).is_none());
    let e = make_extensions(9000).unwrap();
    assert_eq!(e.bytes, Some(9000));
    assert!(e.drop_reason.is_none());
    assert!(e.pid.is_none());
}
