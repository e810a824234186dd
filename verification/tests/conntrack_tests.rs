use retina::conntrack::{Conntrack, CtV4Key, PacketEvent, TcpFlagsCount, ConntrackMetadata,
    TCP_SYN, TCP_ACK, TCP_FIN, TCP_RST, IPPROTO_TCP, IPPROTO_UDP, OBS_FROM_ENDPOINT,
    CT_SYN_TIMEOUT, CT_LIFETIME_TCP, CT_LIFETIME_NONTCP, CT_TIME_WAIT_TCP, CT_REPORT_INTERVAL,
    ct_reverse_key, ct_get_traffic_direction, OBS_TO_ENDPOINT, OBS_TO_NETWORK, OBS_FROM_NETWORK,
    DIR_EGRESS, DIR_INGRESS, DIR_UNKNOWN};

fn pkt(flags: u16, proto: u8) -> PacketEvent {
    PacketEvent {
        ts_ns: 0,
        bytes: 100,
        src_ip: 0x0A000001,
        dst_ip: 0x0A000002,
        src_port: 40000,
        dst_port: 80,
        proto,
        observation_point: OBS_FROM_ENDPOINT,
        traffic_direction: 0,
        flags,
        is_reply: 0,
        previously_observed_packets: 0,
        previously_observed_bytes: 0,
        prev_flags: TcpFlagsCount::zero(),
        ct_metadata: ConntrackMetadata::zero(),
    }
}

fn forward_key(p: &PacketEvent) -> CtV4Key {
    CtV4Key {
        src_ip: p.src_ip,
        dst_ip: p.dst_ip,
        src_port: p.src_port,
        dst_port: p.dst_port,
        proto: p.proto,
    }
}

fn reply(p: &PacketEvent, flags: u16) -> PacketEvent {
    let mut r = *p;
    r.src_ip = p.dst_ip;
    r.dst_ip = p.src_ip;
    r.src_port = p.dst_port;
    r.dst_port = p.src_port;
    r.flags = flags;
    r
}

#[test]
fn syn_creates_entry_with_syn_timeout() {
    let mut ct = Conntrack::new();
    let mut p = pkt(TCP_SYN, IPPROTO_TCP);
    let now = 1000;
    let report = ct.ct_process_packet(&mut p, OBS_FROM_ENDPOINT, now, true);
    assert!(report.report); // sampled
    let e = ct.get(&forward_key(&p)).unwrap();
    assert_eq!(e.eviction_time, now + CT_SYN_TIMEOUT);
    assert_eq!(p.is_reply, 0);
}

#[test]
fn syn_ack_creates_reverse_entry() {
    let mut ct = Conntrack::new();
    let mut p = pkt(TCP_SYN | TCP_ACK, IPPROTO_TCP);
    let now = 1000;
    ct.ct_process_packet(&mut p, OBS_FROM_ENDPOINT, now, true);
    assert_eq!(p.is_reply, 1);
    let rev = ct_reverse_key(&forward_key(&p));
    let e = ct.get(&rev).unwrap();
    assert_eq!(e.eviction_time, now + CT_LIFETIME_TCP);
}

#[test]
fn midstream_ack_creates_unknown_direction_reply_entry() {
    let mut ct = Conntrack::new();
    let mut p = pkt(TCP_ACK, IPPROTO_TCP);
    let now = 1000;
    ct.ct_process_packet(&mut p, OBS_FROM_ENDPOINT, now, true);
    assert_eq!(p.is_reply, 1);
    let rev = ct_reverse_key(&forward_key(&p));
    let e = ct.get(&rev).unwrap();
    assert_eq!(e.is_direction_unknown, 1);
}

#[test]
fn udp_creates_entry_with_nontcp_lifetime() {
    let mut ct = Conntrack::new();
    let mut p = pkt(0, IPPROTO_UDP);
    let now = 500;
    ct.ct_process_packet(&mut p, OBS_FROM_ENDPOINT, now, true);
    let e = ct.get(&forward_key(&p)).unwrap();
    assert_eq!(e.eviction_time, now + CT_LIFETIME_NONTCP);
}

#[test]
fn rst_deletes_entry_and_reports() {
    let mut ct = Conntrack::new();
    let mut syn = pkt(TCP_SYN, IPPROTO_TCP);
    ct.ct_process_packet(&mut syn, OBS_FROM_ENDPOINT, 1000, true);
    assert_eq!(ct.len(), 1);
    let mut rst = pkt(TCP_RST, IPPROTO_TCP);
    let report = ct.ct_process_packet(&mut rst, OBS_FROM_ENDPOINT, 1001, false);
    assert!(report.report);
    assert_eq!(ct.len(), 0);
    assert!(ct.get(&forward_key(&syn)).is_none());
}

#[test]
fn fin_sets_direction_bit_and_reports() {
    let mut ct = Conntrack::new();
    let mut syn = pkt(TCP_SYN, IPPROTO_TCP);
    ct.ct_process_packet(&mut syn, OBS_FROM_ENDPOINT, 1000, true);
    let mut fin = pkt(TCP_FIN | TCP_ACK, IPPROTO_TCP);
    let report = ct.ct_process_packet(&mut fin, OBS_FROM_ENDPOINT, 1001, false);
    assert!(report.report);
    let e = ct.get(&forward_key(&syn)).unwrap();
    assert!(e.flags_seen_tx & (TCP_FIN as u8) != 0);
    assert!(e.flags_seen_rx & (TCP_FIN as u8) == 0);
}

#[test]
fn both_fins_move_to_time_wait() {
    let mut ct = Conntrack::new();
    let mut syn = pkt(TCP_SYN, IPPROTO_TCP);
    ct.ct_process_packet(&mut syn, OBS_FROM_ENDPOINT, 1000, true);
    let mut fin_tx = pkt(TCP_FIN | TCP_ACK, IPPROTO_TCP);
    ct.ct_process_packet(&mut fin_tx, OBS_FROM_ENDPOINT, 1001, false);
    let mut fin_rx = reply(&pkt(0, IPPROTO_TCP), TCP_FIN | TCP_ACK);
    let now = 1002;
    let report = ct.ct_process_packet(&mut fin_rx, OBS_FROM_ENDPOINT, now, false);
    assert!(report.report);
    assert_eq!(fin_rx.is_reply, 1);
    let e = ct.get(&forward_key(&syn)).unwrap();
    assert_eq!(e.eviction_time, now + CT_TIME_WAIT_TCP);
}

#[test]
fn rst_remembered_in_seen_flags_deletes() {
    // A connection whose direction already saw an RST is torn down by the
    // next packet, whatever that packet carries.
    let mut ct = Conntrack::new();
    let mut first = pkt(TCP_RST, IPPROTO_TCP);
    // No SYN and no ACK: a mid-stream entry is created carrying RST in its
    // seen flags.
    ct.ct_process_packet(&mut first, OBS_FROM_ENDPOINT, 1000, false);
    assert_eq!(ct.len(), 1);
    let mut plain = pkt(0, IPPROTO_TCP);
    let report = ct.ct_process_packet(&mut plain, OBS_FROM_ENDPOINT, 1001, false);
    assert!(report.report);
    assert_eq!(ct.len(), 0);
}

#[test]
fn expired_entry_is_dropped_on_next_packet() {
    let mut ct = Conntrack::new();
    let mut syn = pkt(TCP_SYN, IPPROTO_TCP);
    ct.ct_process_packet(&mut syn, OBS_FROM_ENDPOINT, 1000, true);
    // Far past the handshake timeout.
    let mut late = pkt(TCP_ACK, IPPROTO_TCP);
    let report = ct.ct_process_packet(&mut late, OBS_FROM_ENDPOINT, 1000 + CT_SYN_TIMEOUT, false);
    assert!(report.report);
    assert!(ct.get(&forward_key(&syn)).is_none());
}

#[test]
fn unsampled_packets_accumulate_until_interval() {
    let mut ct = Conntrack::new();
    let mut syn = pkt(TCP_SYN, IPPROTO_TCP);
    ct.ct_process_packet(&mut syn, OBS_FROM_ENDPOINT, 1000, true);
    // A plain data packet, unsampled, no flag change, within the interval:
    // no report, counters accumulate.
    let mut data = pkt(TCP_SYN, IPPROTO_TCP);
    let report = ct.ct_process_packet(&mut data, OBS_FROM_ENDPOINT, 1001, false);
    // SYN is a control flag, so this still reports.
    assert!(report.report);

    // UDP side: no control flags at all.
    let mut udp = pkt(0, IPPROTO_UDP);
    ct.ct_process_packet(&mut udp, OBS_FROM_ENDPOINT, 1000, true);
    let mut udp2 = pkt(0, IPPROTO_UDP);
    let report = ct.ct_process_packet(&mut udp2, OBS_FROM_ENDPOINT, 1001, false);
    assert!(!report.report);
    let e = ct.get(&forward_key(&udp)).unwrap();
    assert_eq!(e.pkts_since_report_tx, 1);
    assert_eq!(e.bytes_since_report_tx, 100);
}

#[test]
fn interval_expiry_always_reports() {
    let mut ct = Conntrack::new();
    let mut udp = pkt(0, IPPROTO_UDP);
    ct.ct_process_packet(&mut udp, OBS_FROM_ENDPOINT, 1000, true);
    let mut later = pkt(0, IPPROTO_UDP);
    let report = ct.ct_process_packet(
        &mut later,
        OBS_FROM_ENDPOINT,
        1000 + CT_REPORT_INTERVAL,
        false,
    );
    assert!(report.report);
}

#[test]
fn report_carries_accumulated_context() {
    let mut ct = Conntrack::new();
    let mut udp = pkt(0, IPPROTO_UDP);
    ct.ct_process_packet(&mut udp, OBS_FROM_ENDPOINT, 1000, true);
    let mut udp2 = pkt(0, IPPROTO_UDP);
    ct.ct_process_packet(&mut udp2, OBS_FROM_ENDPOINT, 1001, false);
    let mut udp3 = pkt(0, IPPROTO_UDP);
    let report = ct.ct_process_packet(
        &mut udp3,
        OBS_FROM_ENDPOINT,
        1000 + CT_REPORT_INTERVAL,
        false,
    );
    assert!(report.report);
    // One packet and its bytes accumulated since the creation report.
    assert_eq!(report.previously_observed_packets, 1);
    assert_eq!(report.previously_observed_bytes, 100);
}

#[test]
fn gc_sweep_removes_expired() {
    let mut ct = Conntrack::new();
    let mut a = pkt(0, IPPROTO_UDP);
    ct.ct_process_packet(&mut a, OBS_FROM_ENDPOINT, 1000, true);
    let mut b = pkt(0, IPPROTO_UDP);
    b.dst_port = 53;
    ct.ct_process_packet(&mut b, OBS_FROM_ENDPOINT, 2000, true);
    assert_eq!(ct.len(), 2);
    // At this instant the first entry has expired, the second has not.
    let stats = ct.gc_sweep(1000 + CT_LIFETIME_NONTCP);
    assert_eq!(stats.total, 2);
    assert_eq!(stats.evicted, 1);
    assert_eq!(ct.len(), 1);
    assert!(ct.get(&forward_key(&b)).is_some());
}

#[test]
fn traffic_direction_from_observation_point() {
    assert_eq!(ct_get_traffic_direction(OBS_FROM_ENDPOINT), DIR_EGRESS);
    assert_eq!(ct_get_traffic_direction(OBS_TO_NETWORK), DIR_EGRESS);
    assert_eq!(ct_get_traffic_direction(OBS_TO_ENDPOINT), DIR_INGRESS);
    assert_eq!(ct_get_traffic_direction(OBS_FROM_NETWORK), DIR_INGRESS);
    assert_eq!(ct_get_traffic_direction(99), DIR_UNKNOWN);
}

#[test]
fn reverse_key_swaps_endpoints() {
    let p = pkt(0, IPPROTO_TCP);
    let k = forward_key(&p);
    let r = ct_reverse_key(&k);
    assert_eq!(r.src_ip, k.dst_ip);
    assert_eq!(r.dst_ip, k.src_ip);
    assert_eq!(r.src_port, k.dst_port);
    assert_eq!(r.dst_port, k.src_port);
    assert_eq!(r.proto, k.proto);
}

#[test]
fn cumulative_metadata_counts_both_directions() {
    let mut ct = Conntrack::new();
    let mut syn = pkt(TCP_SYN, IPPROTO_TCP);
    ct.ct_process_packet(&mut syn, OBS_FROM_ENDPOINT, 1000, true);
    let mut rep = reply(&pkt(0, IPPROTO_TCP), TCP_ACK);
    ct.ct_process_packet(&mut rep, OBS_FROM_ENDPOINT, 1001, false);
    assert_eq!(rep.is_reply, 1);
    assert_eq!(rep.ct_metadata.pkts_tx, 1);
    assert_eq!(rep.ct_metadata.pkts_rx, 1);
    assert_eq!(rep.ct_metadata.bytes_rx, 100);
}
