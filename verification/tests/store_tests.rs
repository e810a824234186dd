use retina::events::{AgentEvent, AgentEventKind, AgentEventStore};
use retina::flow::{Flow, Verdict, TrafficDirection, TraceObservationPoint};
use retina::store::{RingBuffer, FlowStore};

fn make_event(kind: AgentEventKind) -> AgentEvent {
    AgentEvent { kind, notification: None }
}

fn make_flow(stamp: i64) -> Flow {
    Flow {
        time_s: stamp,
        time_ns: 0,
        verdict: Verdict::Forwarded,
        ip: None,
        l4: None,
        source: None,
        destination: None,
        source_names: vec![],
        destination_names: vec![],
        traffic_direction: TrafficDirection::Unknown,
        is_reply: None,
        event_type: None,
        trace_observation_point: TraceObservationPoint::Unknown,
        extensions: None,
        summary: String::new(),
        node_name: String::new(),
    }
}

#[test]
fn store_push_and_retrieve() {
    let mut store: RingBuffer<AgentEvent> = RingBuffer::new(10, 0);
    store.push(make_event(AgentEventKind::AgentStarted));
    store.push(make_event(AgentEventKind::IpcacheUpserted));

    assert_eq!(store.len(), 2);
    assert_eq!(store.seen(), 2);

    let events = store.last_n(10);
    assert_eq!(events.len(), 2);
}

#[test]
fn store_ring_buffer_eviction() {
    let mut store: RingBuffer<AgentEvent> = RingBuffer::new(2, 0);
    store.push(make_event(AgentEventKind::AgentStarted));
    store.push(make_event(AgentEventKind::IpcacheUpserted));
    store.push(make_event(AgentEventKind::IpcacheDeleted));

    assert_eq!(store.len(), 2);
    assert_eq!(store.seen(), 3);

    let events = store.last_n(10);
    assert_eq!(events.len(), 2);
    assert_eq!(events[0].kind, AgentEventKind::IpcacheUpserted);
}

#[test]
fn store_first_n() {
    let mut store: RingBuffer<AgentEvent> = RingBuffer::new(10, 0);
    store.push(make_event(AgentEventKind::AgentStarted));
    store.push(make_event(AgentEventKind::IpcacheUpserted));
    store.push(make_event(AgentEventKind::IpcacheDeleted));

    let events = store.first_n(2);
    assert_eq!(events.len(), 2);
    assert_eq!(events[0].kind, AgentEventKind::AgentStarted);
    assert_eq!(events[1].kind, AgentEventKind::IpcacheUpserted);
}

#[test]
fn all_returns_everything() {
    let mut store: RingBuffer<AgentEvent> = RingBuffer::new(10, 0);
    store.push(make_event(AgentEventKind::AgentStarted));
    store.push(make_event(AgentEventKind::IpcacheUpserted));

    let all = store.all();
    assert_eq!(all.len(), 2);
}

#[test]
fn capacity_is_correct() {
    let store: RingBuffer<AgentEvent> = RingBuffer::new(42, 0);
    assert_eq!(store.capacity(), 42);
}

#[test]
fn flow_store_push_and_retrieve() {
    let mut store = FlowStore::new(10, 0);
    store.push(make_flow(1));

    assert_eq!(store.num_flows(), 1);
    assert_eq!(store.seen_flows(), 1);
    assert_eq!(store.all_flows().len(), 1);
}

#[test]
fn flow_store_eviction() {
    let mut store = FlowStore::new(2, 0);
    store.push(make_flow(1));
    store.push(make_flow(2));
    store.push(make_flow(3));

    assert_eq!(store.num_flows(), 2);
    assert_eq!(store.seen_flows(), 3);
    // The oldest flow was evicted, in arrival order.
    let flows = store.last_n(10);
    assert_eq!(flows[0].time_s, 2);
    assert_eq!(flows[1].time_s, 3);
}

#[test]
fn flow_store_rate_returns_zero_initially() {
    let mut store = FlowStore::new(10, 0);
    assert_eq!(store.flows_rate(0), 0);
}

#[test]
fn flow_store_rate_windowing() {
    // One thousand flows over ten seconds: a finite positive rate close to
    // one hundred flows per second; a query within the five-second floor
    // after a snapshot refresh reads zero.
    let mut store = FlowStore::new(2048, 0);
    for i in 0..1000 {
        store.push(make_flow(i));
    }
    let ten_s: u64 = 10_000_000_000;
    let rate = store.flows_rate(ten_s);
    // Thousandths of flows per second: 1000 flows / 10 s = 100_000.
    assert_eq!(rate, 100_000);
    // Under five seconds no rate is computed at all.
    let mut early = FlowStore::new(16, 0);
    early.push(make_flow(1));
    assert_eq!(early.flows_rate(4_000_000_000), 0);
}

#[test]
fn agent_events_push_and_retrieve() {
    let mut store = AgentEventStore::new(10, 0);
    store.push(make_event(AgentEventKind::AgentStarted));
    store.push(make_event(AgentEventKind::IpcacheUpserted));

    assert_eq!(store.num_events(), 2);
    assert_eq!(store.seen_events(), 2);

    let events = store.last_n(10);
    assert_eq!(events.len(), 2);
}

#[test]
fn agent_events_ring_buffer_eviction() {
    let mut store = AgentEventStore::new(2, 0);
    store.push(make_event(AgentEventKind::AgentStarted));
    store.push(make_event(AgentEventKind::IpcacheUpserted));
    store.push(make_event(AgentEventKind::IpcacheDeleted));

    assert_eq!(store.num_events(), 2);
    assert_eq!(store.seen_events(), 3);

    let events = store.last_n(10);
    assert_eq!(events.len(), 2);
    assert_eq!(events[0].kind, AgentEventKind::IpcacheUpserted);
}

#[test]
fn agent_events_first_n() {
    let mut store = AgentEventStore::new(10, 0);
    store.push(make_event(AgentEventKind::AgentStarted));
    store.push(make_event(AgentEventKind::IpcacheUpserted));
    store.push(make_event(AgentEventKind::IpcacheDeleted));

    let events = store.first_n(2);
    assert_eq!(events.len(), 2);
    assert_eq!(events[0].kind, AgentEventKind::AgentStarted);
    assert_eq!(events[1].kind, AgentEventKind::IpcacheUpserted);
}

#[test]
fn full_store_push_keeps_capacity() {
    // Pushing into a full store keeps the length at capacity, evicts
    // exactly the oldest element, and advances the cumulative count by one.
    let mut store = FlowStore::new(3, 0);
    store.push(make_flow(1));
    store.push(make_flow(2));
    store.push(make_flow(3));
    assert_eq!(store.num_flows(), 3);
    let seen_before = store.seen_flows();
    store.push(make_flow(4));
    assert_eq!(store.num_flows(), 3);
    assert_eq!(store.seen_flows(), seen_before + 1);
    let flows = store.first_n(3);
    assert_eq!(flows[0].time_s, 2);
    assert_eq!(flows[1].time_s, 3);
    assert_eq!(flows[2].time_s, 4);
}

#[test]
fn uptime_tracks_creation() {
    let store = FlowStore::new(1, 500);
    assert_eq!(store.uptime_ns(1500), 1000);
}
